use phybkc::config::{Config, DefaultProfile, Profile};

#[test]
fn test_config_parsing() {
    let toml_content = r#"
[profiles]
profileA = "C:/User/phybkc/profiles/profileA.json"

[default_profile]
default = "profileA"

[global_scripts]
scriptA = "C:/User/phybkc/scripts/scriptA.phybkc"
"#;
    let value: toml::Value = toml::from_str(toml_content).unwrap();
    let profiles: Vec<(String, String)> = value["profiles"]
        .as_table()
        .unwrap()
        .iter()
        .map(|(k, v)| (k.clone(), v.as_str().unwrap().to_string()))
        .collect();
    let global_scripts: Vec<(String, String)> = value["global_scripts"]
        .as_table()
        .unwrap()
        .iter()
        .map(|(k, v)| (k.clone(), v.as_str().unwrap().to_string()))
        .collect();
    let config = Config {
        profiles,
        default_profile: DefaultProfile {
            default: value["default_profile"]["default"].as_str().unwrap().to_string(),
        },
        global_scripts,
    };
    assert_eq!(
        config.profile_path("profileA").as_deref(),
        Some("C:/User/phybkc/profiles/profileA.json")
    );
    assert_eq!(config.default_profile.default, "profileA");
}

#[test]
fn test_profile_parsing() {
    let json_content = r#"
{
    "name": "profileA",
    "keyboard": "JIS",
    "scripts": [
        "C:/User/phybkc/scripts/scriptA.phybkc"
    ],
    "keys": {
        "0x1E": "A",
        "0x30": "B"
    }
}
"#;
    let value: serde_json::Value = serde_json::from_str(json_content).unwrap();
    let scripts: Vec<String> = value["scripts"]
        .as_array()
        .unwrap()
        .iter()
        .map(|v| v.as_str().unwrap().to_string())
        .collect();
    let keys: Vec<(String, String)> = value["keys"]
        .as_object()
        .unwrap()
        .iter()
        .map(|(k, v)| (k.clone(), v.as_str().unwrap().to_string()))
        .collect();
    let profile = Profile {
        name: value["name"].as_str().unwrap().to_string(),
        keyboard: value["keyboard"].as_str().unwrap().to_string(),
        scripts,
        keys,
    };
    assert_eq!(profile.name, "profileA");
    assert_eq!(profile.keyboard, "JIS");
    let target = profile.keys.iter().find(|(k, _)| k == "0x1E").map(|(_, v)| v.clone());
    assert_eq!(target.as_deref(), Some("A"));
}
