//! The key identity table: a static bidirectional mapping between key
//! names and 16-bit scan codes, with a hex escape hatch (`"0xNN"`).

use vstd::prelude::*;

verus! {

/// True for the sixteen ASCII hexadecimal digit characters.
pub open spec fn is_hex_digit_char(c: char) -> bool {
    ('0' <= c && c <= '9') || ('a' <= c && c <= 'f') || ('A' <= c && c <= 'F')
}

/// Numeric value of one hexadecimal digit character.
pub open spec fn hex_digit_val(c: char) -> nat {
    if '0' <= c && c <= '9' {
        (c as nat - '0' as nat) as nat
    } else if 'a' <= c && c <= 'f' {
        (c as nat - 'a' as nat + 10) as nat
    } else if 'A' <= c && c <= 'F' {
        (c as nat - 'A' as nat + 10) as nat
    } else {
        0
    }
}

/// Value of a big-endian string of hexadecimal digits.
pub open spec fn hex_seq_val(s: Seq<char>) -> nat
    decreases s.len(),
{
    if s.len() == 0 {
        0
    } else {
        hex_seq_val(s.drop_last()) * 16 + hex_digit_val(s.last())
    }
}

/// True when every character of `s` is a hexadecimal digit.
pub open spec fn all_hex_digits(s: Seq<char>) -> bool {
    forall|i: int| 0 <= i < s.len() ==> is_hex_digit_char(#[trigger] s[i])
}

/// Numeric value of one hexadecimal digit character, executable form.
fn hex_digit_val_exec(c: char) -> (r: u8)
    requires
        is_hex_digit_char(c),
    ensures
        r as nat == hex_digit_val(c),
        r < 16,
{
    if '0' <= c && c <= '9' {
        (c as u8) - ('0' as u8)
    } else if 'a' <= c && c <= 'f' {
        (c as u8) - ('a' as u8) + 10
    } else {
        (c as u8) - ('A' as u8) + 10
    }
}


/// Number of entries in the seeded key identity table.
pub const KEY_COUNT: usize = 87;

/// Name of the `i`-th entry of the seeded key identity table.
pub open spec fn key_name(i: int) -> Seq<char> {
    if i == 0 {
        seq!['1']
    } else if i == 1 {
        seq!['2']
    } else if i == 2 {
        seq!['3']
    } else if i == 3 {
        seq!['4']
    } else if i == 4 {
        seq!['5']
    } else if i == 5 {
        seq!['6']
    } else if i == 6 {
        seq!['7']
    } else if i == 7 {
        seq!['8']
    } else if i == 8 {
        seq!['9']
    } else if i == 9 {
        seq!['0']
    } else if i == 10 {
        seq!['A']
    } else if i == 11 {
        seq!['B']
    } else if i == 12 {
        seq!['C']
    } else if i == 13 {
        seq!['D']
    } else if i == 14 {
        seq!['E']
    } else if i == 15 {
        seq!['F']
    } else if i == 16 {
        seq!['G']
    } else if i == 17 {
        seq!['H']
    } else if i == 18 {
        seq!['I']
    } else if i == 19 {
        seq!['J']
    } else if i == 20 {
        seq!['K']
    } else if i == 21 {
        seq!['L']
    } else if i == 22 {
        seq!['M']
    } else if i == 23 {
        seq!['N']
    } else if i == 24 {
        seq!['O']
    } else if i == 25 {
        seq!['P']
    } else if i == 26 {
        seq!['Q']
    } else if i == 27 {
        seq!['R']
    } else if i == 28 {
        seq!['S']
    } else if i == 29 {
        seq!['T']
    } else if i == 30 {
        seq!['U']
    } else if i == 31 {
        seq!['V']
    } else if i == 32 {
        seq!['W']
    } else if i == 33 {
        seq!['X']
    } else if i == 34 {
        seq!['Y']
    } else if i == 35 {
        seq!['Z']
    } else if i == 36 {
        seq!['F', '1']
    } else if i == 37 {
        seq!['F', '2']
    } else if i == 38 {
        seq!['F', '3']
    } else if i == 39 {
        seq!['F', '4']
    } else if i == 40 {
        seq!['F', '5']
    } else if i == 41 {
        seq!['F', '6']
    } else if i == 42 {
        seq!['F', '7']
    } else if i == 43 {
        seq!['F', '8']
    } else if i == 44 {
        seq!['F', '9']
    } else if i == 45 {
        seq!['F', '1', '0']
    } else if i == 46 {
        seq!['F', '1', '1']
    } else if i == 47 {
        seq!['F', '1', '2']
    } else if i == 48 {
        seq!['E', 's', 'c', 'a', 'p', 'e']
    } else if i == 49 {
        seq!['M', 'i', 'n', 'u', 's']
    } else if i == 50 {
        seq!['E', 'q', 'u', 'a', 'l']
    } else if i == 51 {
        seq!['B', 'a', 'c', 'k', 's', 'p', 'a', 'c', 'e']
    } else if i == 52 {
        seq!['T', 'a', 'b']
    } else if i == 53 {
        seq!['E', 'n', 't', 'e', 'r']
    } else if i == 54 {
        seq!['C', 't', 'r', 'l']
    } else if i == 55 {
        seq!['L', 'e', 'f', 't', 'C', 't', 'r', 'l']
    } else if i == 56 {
        seq!['S', 'e', 'm', 'i', 'C', 'o', 'l', 'o', 'n']
    } else if i == 57 {
        seq!['Q', 'u', 'o', 't', 'e']
    } else if i == 58 {
        seq!['B', 'a', 'c', 'k', 'Q', 'u', 'o', 't', 'e']
    } else if i == 59 {
        seq!['L', 'e', 'f', 't', 'S', 'h', 'i', 'f', 't']
    } else if i == 60 {
        seq!['S', 'h', 'i', 'f', 't']
    } else if i == 61 {
        seq!['B', 'a', 'c', 'k', 'S', 'l', 'a', 's', 'h']
    } else if i == 62 {
        seq!['C', 'o', 'm', 'm', 'a']
    } else if i == 63 {
        seq!['P', 'e', 'r', 'i', 'o', 'd']
    } else if i == 64 {
        seq!['S', 'l', 'a', 's', 'h']
    } else if i == 65 {
        seq!['R', 'i', 'g', 'h', 't', 'S', 'h', 'i', 'f', 't']
    } else if i == 66 {
        seq!['L', 'e', 'f', 't', 'A', 'l', 't']
    } else if i == 67 {
        seq!['A', 'l', 't']
    } else if i == 68 {
        seq!['S', 'p', 'a', 'c', 'e']
    } else if i == 69 {
        seq!['C', 'a', 'p', 's', 'L', 'o', 'c', 'k']
    } else if i == 70 {
        seq!['N', 'u', 'm', '7']
    } else if i == 71 {
        seq!['N', 'u', 'm', '8']
    } else if i == 72 {
        seq!['N', 'u', 'm', '9']
    } else if i == 73 {
        seq!['N', 'u', 'm', 'M', 'i', 'n', 'u', 's']
    } else if i == 74 {
        seq!['N', 'u', 'm', '4']
    } else if i == 75 {
        seq!['N', 'u', 'm', '5']
    } else if i == 76 {
        seq!['N', 'u', 'm', '6']
    } else if i == 77 {
        seq!['N', 'u', 'm', 'P', 'l', 'u', 's']
    } else if i == 78 {
        seq!['N', 'u', 'm', '1']
    } else if i == 79 {
        seq!['N', 'u', 'm', '2']
    } else if i == 80 {
        seq!['N', 'u', 'm', '3']
    } else if i == 81 {
        seq!['N', 'u', 'm', '0']
    } else if i == 82 {
        seq!['N', 'u', 'm', 'D', 'o', 't']
    } else if i == 83 {
        seq!['H', 'a', 'n', 'Z', 'e', 'n']
    } else if i == 84 {
        seq!['H', 'e', 'n', 'k', 'a', 'n']
    } else if i == 85 {
        seq!['M', 'u', 'h', 'e', 'n', 'k', 'a', 'n']
    } else if i == 86 {
        seq!['H', 'i', 'r', 'a', 'g', 'a', 'n', 'a']
    } else {
        seq![]
    }
}

/// Scan code of the `i`-th entry of the seeded key identity table.
pub open spec fn key_code(i: int) -> u16 {
    if i == 0 {
        0x02
    } else if i == 1 {
        0x03
    } else if i == 2 {
        0x04
    } else if i == 3 {
        0x05
    } else if i == 4 {
        0x06
    } else if i == 5 {
        0x07
    } else if i == 6 {
        0x08
    } else if i == 7 {
        0x09
    } else if i == 8 {
        0x0A
    } else if i == 9 {
        0x0B
    } else if i == 10 {
        0x1E
    } else if i == 11 {
        0x30
    } else if i == 12 {
        0x2E
    } else if i == 13 {
        0x20
    } else if i == 14 {
        0x12
    } else if i == 15 {
        0x21
    } else if i == 16 {
        0x22
    } else if i == 17 {
        0x23
    } else if i == 18 {
        0x17
    } else if i == 19 {
        0x24
    } else if i == 20 {
        0x25
    } else if i == 21 {
        0x26
    } else if i == 22 {
        0x32
    } else if i == 23 {
        0x31
    } else if i == 24 {
        0x18
    } else if i == 25 {
        0x19
    } else if i == 26 {
        0x10
    } else if i == 27 {
        0x13
    } else if i == 28 {
        0x1F
    } else if i == 29 {
        0x14
    } else if i == 30 {
        0x16
    } else if i == 31 {
        0x2F
    } else if i == 32 {
        0x11
    } else if i == 33 {
        0x2D
    } else if i == 34 {
        0x15
    } else if i == 35 {
        0x2C
    } else if i == 36 {
        0x3B
    } else if i == 37 {
        0x3C
    } else if i == 38 {
        0x3D
    } else if i == 39 {
        0x3E
    } else if i == 40 {
        0x3F
    } else if i == 41 {
        0x40
    } else if i == 42 {
        0x41
    } else if i == 43 {
        0x42
    } else if i == 44 {
        0x43
    } else if i == 45 {
        0x44
    } else if i == 46 {
        0x57
    } else if i == 47 {
        0x58
    } else if i == 48 {
        0x01
    } else if i == 49 {
        0x0C
    } else if i == 50 {
        0x0D
    } else if i == 51 {
        0x0E
    } else if i == 52 {
        0x0F
    } else if i == 53 {
        0x1C
    } else if i == 54 {
        0x1D
    } else if i == 55 {
        0x1D
    } else if i == 56 {
        0x27
    } else if i == 57 {
        0x28
    } else if i == 58 {
        0x29
    } else if i == 59 {
        0x2A
    } else if i == 60 {
        0x2A
    } else if i == 61 {
        0x2B
    } else if i == 62 {
        0x33
    } else if i == 63 {
        0x34
    } else if i == 64 {
        0x35
    } else if i == 65 {
        0x36
    } else if i == 66 {
        0x38
    } else if i == 67 {
        0x38
    } else if i == 68 {
        0x39
    } else if i == 69 {
        0x3A
    } else if i == 70 {
        0x47
    } else if i == 71 {
        0x48
    } else if i == 72 {
        0x49
    } else if i == 73 {
        0x4A
    } else if i == 74 {
        0x4B
    } else if i == 75 {
        0x4C
    } else if i == 76 {
        0x4D
    } else if i == 77 {
        0x4E
    } else if i == 78 {
        0x4F
    } else if i == 79 {
        0x50
    } else if i == 80 {
        0x51
    } else if i == 81 {
        0x52
    } else if i == 82 {
        0x53
    } else if i == 83 {
        0x29
    } else if i == 84 {
        0x79
    } else if i == 85 {
        0x7B
    } else if i == 86 {
        0x70
    } else {
        0
    }
}

/// The seeded key identity table as a sequence of (name, scan code)
/// pairs, in insertion order.
pub open spec fn key_table() -> Seq<(Seq<char>, u16)> {
    Seq::new(KEY_COUNT as nat, |i: int| (key_name(i), key_code(i)))
}

/// First entry at index `i` or later whose name is `name`, if any.
pub open spec fn name_lookup(name: Seq<char>, i: nat) -> Option<u16>
    decreases KEY_COUNT - i,
{
    if i >= KEY_COUNT {
        None
    } else if key_name(i as int) == name {
        Some(key_code(i as int))
    } else {
        name_lookup(name, i + 1)
    }
}

/// Last entry among the first `n` whose scan code is `code`, if any.
/// The latest insertion wins, as it would in a map filled front to back.
pub open spec fn code_lookup(code: u16, n: nat) -> Option<Seq<char>>
    decreases n,
{
    if n == 0 {
        None
    } else if key_code(n - 1) == code {
        Some(key_name(n - 1))
    } else {
        code_lookup(code, (n - 1) as nat)
    }
}

/// Scan-code value of a name of the hex form `0xNN` (one or more hex
/// digits after the `0x`, value at most 0xFFFF), if it has that form.
pub open spec fn hex_name_val(name: Seq<char>) -> Option<u16> {
    if name.len() >= 3 && name[0] == '0' && name[1] == 'x' && all_hex_digits(name.skip(2))
        && hex_seq_val(name.skip(2)) <= 0xFFFF {
        Some(hex_seq_val(name.skip(2)) as u16)
    } else {
        None
    }
}

/// What `get_scancode` returns: the seeded table entry for `name`, or
/// the value of a hex-form name as a fallback.
pub open spec fn spec_get_scancode(name: Seq<char>) -> Option<u16> {
    match name_lookup(name, 0) {
        Some(code) => Some(code),
        None => hex_name_val(name),
    }
}

/// What `get_name` returns: the canonical (latest-seeded) name for `code`.
pub open spec fn spec_get_name(code: u16) -> Option<Seq<char>> {
    code_lookup(code, KEY_COUNT as nat)
}

/// True when the first `n` elements of `s` are exactly the first `n`
/// entries of the seeded key identity table.
pub open spec fn table_prefix(s: Seq<(String, u16)>, n: int) -> bool {
    s.len() == n && forall|i: int|
        0 <= i < n ==> (#[trigger] s[i]).0@ == key_name(i) && s[i].1 == key_code(i)
}

fn push_entry(v: &mut Vec<(String, u16)>, name: String, code: u16)
    requires
        table_prefix(old(v)@, old(v)@.len() as int),
        old(v)@.len() < KEY_COUNT,
        name@ == key_name(old(v)@.len() as int),
        code == key_code(old(v)@.len() as int),
    ensures
        table_prefix(final(v)@, final(v)@.len() as int),
        final(v)@.len() == old(v)@.len() + 1,
{
    let ghost n = v@.len() as int;
    v.push((name, code));
    proof {
        assert forall|i: int| 0 <= i < n + 1 implies (#[trigger] v@[i]).0@ == key_name(i)
            && v@[i].1 == key_code(i) by {
            if i < n {
                assert(v@[i] == old(v)@[i]);
            }
        }
    }
}

/// Builds the seeded key identity table, name to scan code, in
/// insertion order.
pub fn init_maps() -> (r: Vec<(String, u16)>)
    ensures
        table_prefix(r@, KEY_COUNT as int),
{
    let mut v: Vec<(String, u16)> = Vec::new();
    proof { reveal_strlit("1"); assert("1"@ =~= key_name(0)); }
    push_entry(&mut v, "1".to_owned(), 0x02);
    proof { reveal_strlit("2"); assert("2"@ =~= key_name(1)); }
    push_entry(&mut v, "2".to_owned(), 0x03);
    proof { reveal_strlit("3"); assert("3"@ =~= key_name(2)); }
    push_entry(&mut v, "3".to_owned(), 0x04);
    proof { reveal_strlit("4"); assert("4"@ =~= key_name(3)); }
    push_entry(&mut v, "4".to_owned(), 0x05);
    proof { reveal_strlit("5"); assert("5"@ =~= key_name(4)); }
    push_entry(&mut v, "5".to_owned(), 0x06);
    proof { reveal_strlit("6"); assert("6"@ =~= key_name(5)); }
    push_entry(&mut v, "6".to_owned(), 0x07);
    proof { reveal_strlit("7"); assert("7"@ =~= key_name(6)); }
    push_entry(&mut v, "7".to_owned(), 0x08);
    proof { reveal_strlit("8"); assert("8"@ =~= key_name(7)); }
    push_entry(&mut v, "8".to_owned(), 0x09);
    proof { reveal_strlit("9"); assert("9"@ =~= key_name(8)); }
    push_entry(&mut v, "9".to_owned(), 0x0A);
    proof { reveal_strlit("0"); assert("0"@ =~= key_name(9)); }
    push_entry(&mut v, "0".to_owned(), 0x0B);
    proof { reveal_strlit("A"); assert("A"@ =~= key_name(10)); }
    push_entry(&mut v, "A".to_owned(), 0x1E);
    proof { reveal_strlit("B"); assert("B"@ =~= key_name(11)); }
    push_entry(&mut v, "B".to_owned(), 0x30);
    proof { reveal_strlit("C"); assert("C"@ =~= key_name(12)); }
    push_entry(&mut v, "C".to_owned(), 0x2E);
    proof { reveal_strlit("D"); assert("D"@ =~= key_name(13)); }
    push_entry(&mut v, "D".to_owned(), 0x20);
    proof { reveal_strlit("E"); assert("E"@ =~= key_name(14)); }
    push_entry(&mut v, "E".to_owned(), 0x12);
    proof { reveal_strlit("F"); assert("F"@ =~= key_name(15)); }
    push_entry(&mut v, "F".to_owned(), 0x21);
    proof { reveal_strlit("G"); assert("G"@ =~= key_name(16)); }
    push_entry(&mut v, "G".to_owned(), 0x22);
    proof { reveal_strlit("H"); assert("H"@ =~= key_name(17)); }
    push_entry(&mut v, "H".to_owned(), 0x23);
    proof { reveal_strlit("I"); assert("I"@ =~= key_name(18)); }
    push_entry(&mut v, "I".to_owned(), 0x17);
    proof { reveal_strlit("J"); assert("J"@ =~= key_name(19)); }
    push_entry(&mut v, "J".to_owned(), 0x24);
    proof { reveal_strlit("K"); assert("K"@ =~= key_name(20)); }
    push_entry(&mut v, "K".to_owned(), 0x25);
    proof { reveal_strlit("L"); assert("L"@ =~= key_name(21)); }
    push_entry(&mut v, "L".to_owned(), 0x26);
    proof { reveal_strlit("M"); assert("M"@ =~= key_name(22)); }
    push_entry(&mut v, "M".to_owned(), 0x32);
    proof { reveal_strlit("N"); assert("N"@ =~= key_name(23)); }
    push_entry(&mut v, "N".to_owned(), 0x31);
    proof { reveal_strlit("O"); assert("O"@ =~= key_name(24)); }
    push_entry(&mut v, "O".to_owned(), 0x18);
    proof { reveal_strlit("P"); assert("P"@ =~= key_name(25)); }
    push_entry(&mut v, "P".to_owned(), 0x19);
    proof { reveal_strlit("Q"); assert("Q"@ =~= key_name(26)); }
    push_entry(&mut v, "Q".to_owned(), 0x10);
    proof { reveal_strlit("R"); assert("R"@ =~= key_name(27)); }
    push_entry(&mut v, "R".to_owned(), 0x13);
    proof { reveal_strlit("S"); assert("S"@ =~= key_name(28)); }
    push_entry(&mut v, "S".to_owned(), 0x1F);
    proof { reveal_strlit("T"); assert("T"@ =~= key_name(29)); }
    push_entry(&mut v, "T".to_owned(), 0x14);
    proof { reveal_strlit("U"); assert("U"@ =~= key_name(30)); }
    push_entry(&mut v, "U".to_owned(), 0x16);
    proof { reveal_strlit("V"); assert("V"@ =~= key_name(31)); }
    push_entry(&mut v, "V".to_owned(), 0x2F);
    proof { reveal_strlit("W"); assert("W"@ =~= key_name(32)); }
    push_entry(&mut v, "W".to_owned(), 0x11);
    proof { reveal_strlit("X"); assert("X"@ =~= key_name(33)); }
    push_entry(&mut v, "X".to_owned(), 0x2D);
    proof { reveal_strlit("Y"); assert("Y"@ =~= key_name(34)); }
    push_entry(&mut v, "Y".to_owned(), 0x15);
    proof { reveal_strlit("Z"); assert("Z"@ =~= key_name(35)); }
    push_entry(&mut v, "Z".to_owned(), 0x2C);
    proof { reveal_strlit("F1"); assert("F1"@ =~= key_name(36)); }
    push_entry(&mut v, "F1".to_owned(), 0x3B);
    proof { reveal_strlit("F2"); assert("F2"@ =~= key_name(37)); }
    push_entry(&mut v, "F2".to_owned(), 0x3C);
    proof { reveal_strlit("F3"); assert("F3"@ =~= key_name(38)); }
    push_entry(&mut v, "F3".to_owned(), 0x3D);
    proof { reveal_strlit("F4"); assert("F4"@ =~= key_name(39)); }
    push_entry(&mut v, "F4".to_owned(), 0x3E);
    proof { reveal_strlit("F5"); assert("F5"@ =~= key_name(40)); }
    push_entry(&mut v, "F5".to_owned(), 0x3F);
    proof { reveal_strlit("F6"); assert("F6"@ =~= key_name(41)); }
    push_entry(&mut v, "F6".to_owned(), 0x40);
    proof { reveal_strlit("F7"); assert("F7"@ =~= key_name(42)); }
    push_entry(&mut v, "F7".to_owned(), 0x41);
    proof { reveal_strlit("F8"); assert("F8"@ =~= key_name(43)); }
    push_entry(&mut v, "F8".to_owned(), 0x42);
    proof { reveal_strlit("F9"); assert("F9"@ =~= key_name(44)); }
    push_entry(&mut v, "F9".to_owned(), 0x43);
    proof { reveal_strlit("F10"); assert("F10"@ =~= key_name(45)); }
    push_entry(&mut v, "F10".to_owned(), 0x44);
    proof { reveal_strlit("F11"); assert("F11"@ =~= key_name(46)); }
    push_entry(&mut v, "F11".to_owned(), 0x57);
    proof { reveal_strlit("F12"); assert("F12"@ =~= key_name(47)); }
    push_entry(&mut v, "F12".to_owned(), 0x58);
    proof { reveal_strlit("Escape"); assert("Escape"@ =~= key_name(48)); }
    push_entry(&mut v, "Escape".to_owned(), 0x01);
    proof { reveal_strlit("Minus"); assert("Minus"@ =~= key_name(49)); }
    push_entry(&mut v, "Minus".to_owned(), 0x0C);
    proof { reveal_strlit("Equal"); assert("Equal"@ =~= key_name(50)); }
    push_entry(&mut v, "Equal".to_owned(), 0x0D);
    proof { reveal_strlit("Backspace"); assert("Backspace"@ =~= key_name(51)); }
    push_entry(&mut v, "Backspace".to_owned(), 0x0E);
    proof { reveal_strlit("Tab"); assert("Tab"@ =~= key_name(52)); }
    push_entry(&mut v, "Tab".to_owned(), 0x0F);
    proof { reveal_strlit("Enter"); assert("Enter"@ =~= key_name(53)); }
    push_entry(&mut v, "Enter".to_owned(), 0x1C);
    proof { reveal_strlit("Ctrl"); assert("Ctrl"@ =~= key_name(54)); }
    push_entry(&mut v, "Ctrl".to_owned(), 0x1D);
    proof { reveal_strlit("LeftCtrl"); assert("LeftCtrl"@ =~= key_name(55)); }
    push_entry(&mut v, "LeftCtrl".to_owned(), 0x1D);
    proof { reveal_strlit("SemiColon"); assert("SemiColon"@ =~= key_name(56)); }
    push_entry(&mut v, "SemiColon".to_owned(), 0x27);
    proof { reveal_strlit("Quote"); assert("Quote"@ =~= key_name(57)); }
    push_entry(&mut v, "Quote".to_owned(), 0x28);
    proof { reveal_strlit("BackQuote"); assert("BackQuote"@ =~= key_name(58)); }
    push_entry(&mut v, "BackQuote".to_owned(), 0x29);
    proof { reveal_strlit("LeftShift"); assert("LeftShift"@ =~= key_name(59)); }
    push_entry(&mut v, "LeftShift".to_owned(), 0x2A);
    proof { reveal_strlit("Shift"); assert("Shift"@ =~= key_name(60)); }
    push_entry(&mut v, "Shift".to_owned(), 0x2A);
    proof { reveal_strlit("BackSlash"); assert("BackSlash"@ =~= key_name(61)); }
    push_entry(&mut v, "BackSlash".to_owned(), 0x2B);
    proof { reveal_strlit("Comma"); assert("Comma"@ =~= key_name(62)); }
    push_entry(&mut v, "Comma".to_owned(), 0x33);
    proof { reveal_strlit("Period"); assert("Period"@ =~= key_name(63)); }
    push_entry(&mut v, "Period".to_owned(), 0x34);
    proof { reveal_strlit("Slash"); assert("Slash"@ =~= key_name(64)); }
    push_entry(&mut v, "Slash".to_owned(), 0x35);
    proof { reveal_strlit("RightShift"); assert("RightShift"@ =~= key_name(65)); }
    push_entry(&mut v, "RightShift".to_owned(), 0x36);
    proof { reveal_strlit("LeftAlt"); assert("LeftAlt"@ =~= key_name(66)); }
    push_entry(&mut v, "LeftAlt".to_owned(), 0x38);
    proof { reveal_strlit("Alt"); assert("Alt"@ =~= key_name(67)); }
    push_entry(&mut v, "Alt".to_owned(), 0x38);
    proof { reveal_strlit("Space"); assert("Space"@ =~= key_name(68)); }
    push_entry(&mut v, "Space".to_owned(), 0x39);
    proof { reveal_strlit("CapsLock"); assert("CapsLock"@ =~= key_name(69)); }
    push_entry(&mut v, "CapsLock".to_owned(), 0x3A);
    proof { reveal_strlit("Num7"); assert("Num7"@ =~= key_name(70)); }
    push_entry(&mut v, "Num7".to_owned(), 0x47);
    proof { reveal_strlit("Num8"); assert("Num8"@ =~= key_name(71)); }
    push_entry(&mut v, "Num8".to_owned(), 0x48);
    proof { reveal_strlit("Num9"); assert("Num9"@ =~= key_name(72)); }
    push_entry(&mut v, "Num9".to_owned(), 0x49);
    proof { reveal_strlit("NumMinus"); assert("NumMinus"@ =~= key_name(73)); }
    push_entry(&mut v, "NumMinus".to_owned(), 0x4A);
    proof { reveal_strlit("Num4"); assert("Num4"@ =~= key_name(74)); }
    push_entry(&mut v, "Num4".to_owned(), 0x4B);
    proof { reveal_strlit("Num5"); assert("Num5"@ =~= key_name(75)); }
    push_entry(&mut v, "Num5".to_owned(), 0x4C);
    proof { reveal_strlit("Num6"); assert("Num6"@ =~= key_name(76)); }
    push_entry(&mut v, "Num6".to_owned(), 0x4D);
    proof { reveal_strlit("NumPlus"); assert("NumPlus"@ =~= key_name(77)); }
    push_entry(&mut v, "NumPlus".to_owned(), 0x4E);
    proof { reveal_strlit("Num1"); assert("Num1"@ =~= key_name(78)); }
    push_entry(&mut v, "Num1".to_owned(), 0x4F);
    proof { reveal_strlit("Num2"); assert("Num2"@ =~= key_name(79)); }
    push_entry(&mut v, "Num2".to_owned(), 0x50);
    proof { reveal_strlit("Num3"); assert("Num3"@ =~= key_name(80)); }
    push_entry(&mut v, "Num3".to_owned(), 0x51);
    proof { reveal_strlit("Num0"); assert("Num0"@ =~= key_name(81)); }
    push_entry(&mut v, "Num0".to_owned(), 0x52);
    proof { reveal_strlit("NumDot"); assert("NumDot"@ =~= key_name(82)); }
    push_entry(&mut v, "NumDot".to_owned(), 0x53);
    proof { reveal_strlit("HanZen"); assert("HanZen"@ =~= key_name(83)); }
    push_entry(&mut v, "HanZen".to_owned(), 0x29);
    proof { reveal_strlit("Henkan"); assert("Henkan"@ =~= key_name(84)); }
    push_entry(&mut v, "Henkan".to_owned(), 0x79);
    proof { reveal_strlit("Muhenkan"); assert("Muhenkan"@ =~= key_name(85)); }
    push_entry(&mut v, "Muhenkan".to_owned(), 0x7B);
    proof { reveal_strlit("Hiragana"); assert("Hiragana"@ =~= key_name(86)); }
    push_entry(&mut v, "Hiragana".to_owned(), 0x70);
    v
}

/// Looks a key name up in the seeded table; falls back to reading a
/// hex string of the form `0xNN`.
pub fn get_scancode(name: &str) -> (r: Option<u16>)
    ensures
        r == spec_get_scancode(name@),
{
    let table = init_maps();
    let name_string = name.to_owned();
    let mut i: usize = 0;
    while i < table.len()
        invariant
            table_prefix(table@, KEY_COUNT as int),
            0 <= i <= KEY_COUNT,
            name_string@ == name@,
            name_lookup(name@, 0) == name_lookup(name@, i as nat),
        decreases KEY_COUNT - i,
    {
        if table[i].0 == name_string {
            return Some(table[i].1);
        }
        i = i + 1;
    }
    assert(name_lookup(name@, KEY_COUNT as nat) is None);
    // Hex fallback: "0x" followed by hex digits, value at most 0xFFFF.
    let n = name.unicode_len();
    if n < 3 {
        return None;
    }
    if name.get_char(0) != '0' || name.get_char(1) != 'x' {
        return None;
    }
    let ghost digits = name@.skip(2);
    let mut acc: u32 = 0;
    let mut j: usize = 2;
    while j < n
        invariant
            3 <= n == name@.len(),
            2 <= j <= n,
            name_lookup(name@, 0) is None,
            name@[0] == '0',
            name@[1] == 'x',
            digits == name@.skip(2),
            all_hex_digits(digits.take(j - 2)),
            acc as nat == hex_seq_val(digits.take(j - 2)),
            acc <= 0xFFFF,
        decreases n - j,
    {
        let c = name.get_char(j);
        let hex = ('0' <= c && c <= '9') || ('a' <= c && c <= 'f') || ('A' <= c && c <= 'F');
        if !hex {
            assert(digits[j - 2] == c);
            assert(!all_hex_digits(digits));
            return None;
        }
        let d = hex_digit_val_exec(c);
        let next = acc * 16 + (d as u32);
        proof {
            assert(digits.take(j - 2 + 1).drop_last() =~= digits.take(j - 2));
            assert(digits.take(j - 2 + 1).last() == digits[j - 2]);
            assert(digits[j - 2] == c);
        }
        if next > 0xFFFF {
            proof {
                lemma_hex_seq_val_take_mono(digits, j - 2 + 1);
            }
            return None;
        }
        acc = next;
        j = j + 1;
    }
    proof {
        assert(digits.take(n - 2) =~= digits);
    }
    Some(acc as u16)
}

/// Growing a hex string never shrinks its value: the value of a prefix
/// is at most the value of the whole.
pub(crate) proof fn lemma_hex_seq_val_take_mono(s: Seq<char>, k: int)
    requires
        0 <= k <= s.len(),
    ensures
        hex_seq_val(s.take(k)) <= hex_seq_val(s),
    decreases s.len() - k,
{
    if k < s.len() {
        lemma_hex_seq_val_take_mono(s, k + 1);
        assert(s.take(k + 1).drop_last() =~= s.take(k));
        assert(hex_seq_val(s.take(k + 1)) == hex_seq_val(s.take(k)) * 16 + hex_digit_val(
            s.take(k + 1).last(),
        ));
    } else {
        assert(s.take(k) =~= s);
    }
}

/// Hexadecimal digit character (uppercase) for a value below sixteen.
pub open spec fn hex_digit_char(n: nat) -> char {
    if n == 0 {
        '0'
    } else if n == 1 {
        '1'
    } else if n == 2 {
        '2'
    } else if n == 3 {
        '3'
    } else if n == 4 {
        '4'
    } else if n == 5 {
        '5'
    } else if n == 6 {
        '6'
    } else if n == 7 {
        '7'
    } else if n == 8 {
        '8'
    } else if n == 9 {
        '9'
    } else if n == 10 {
        'A'
    } else if n == 11 {
        'B'
    } else if n == 12 {
        'C'
    } else if n == 13 {
        'D'
    } else if n == 14 {
        'E'
    } else {
        'F'
    }
}

/// Shortest uppercase hexadecimal spelling of `n`, most significant
/// digit first.
pub open spec fn spec_hex_repr(n: nat) -> Seq<char>
    decreases n,
{
    if n < 16 {
        seq![hex_digit_char(n)]
    } else {
        spec_hex_repr(n / 16).push(hex_digit_char(n % 16))
    }
}

/// The canonical hex name of a scan code: `0x` followed by the
/// uppercase digits, zero-padded to at least two digits.
pub open spec fn spec_hex_name(code: u16) -> Seq<char> {
    if code < 0x10 {
        seq!['0', 'x', '0'] + spec_hex_repr(code as nat)
    } else {
        seq!['0', 'x'] + spec_hex_repr(code as nat)
    }
}

/// Relies on String::push: appends the given character to the string.
#[verifier::external_body]
pub(crate) fn push_char(s: &mut String, c: char)
    ensures
        final(s)@ == old(s)@.push(c),
{
    s.push(c);
}

fn hex_digit_char_exec(n: u8) -> (c: char)
    requires
        n < 16,
    ensures
        c == hex_digit_char(n as nat),
{
    if n == 0 {
        '0'
    } else if n == 1 {
        '1'
    } else if n == 2 {
        '2'
    } else if n == 3 {
        '3'
    } else if n == 4 {
        '4'
    } else if n == 5 {
        '5'
    } else if n == 6 {
        '6'
    } else if n == 7 {
        '7'
    } else if n == 8 {
        '8'
    } else if n == 9 {
        '9'
    } else if n == 10 {
        'A'
    } else if n == 11 {
        'B'
    } else if n == 12 {
        'C'
    } else if n == 13 {
        'D'
    } else if n == 14 {
        'E'
    } else {
        'F'
    }
}

/// Formats a scan code as its canonical hex name, e.g. `0x3A` or
/// `0xE01D`: the key format of a profile's remapping table.
pub fn hex_name(code: u16) -> (r: String)
    ensures
        r@ == spec_hex_name(code),
{
    let mut s = String::new();
    push_char(&mut s, '0');
    push_char(&mut s, 'x');
    if code < 0x10 {
        push_char(&mut s, '0');
        push_char(&mut s, hex_digit_char_exec(code as u8));
        proof {
            assert(s@ =~= spec_hex_name(code));
        }
    } else if code < 0x100 {
        push_char(&mut s, hex_digit_char_exec((code / 16) as u8));
        push_char(&mut s, hex_digit_char_exec((code % 16) as u8));
        proof {
            assert(spec_hex_repr(code as nat) == spec_hex_repr(code as nat / 16).push(
                hex_digit_char(code as nat % 16),
            ));
            assert(spec_hex_repr(code as nat / 16) == seq![hex_digit_char(code as nat / 16)]);
            assert(s@ =~= spec_hex_name(code));
        }
    } else if code < 0x1000 {
        push_char(&mut s, hex_digit_char_exec((code / 256) as u8));
        push_char(&mut s, hex_digit_char_exec(((code / 16) % 16) as u8));
        push_char(&mut s, hex_digit_char_exec((code % 16) as u8));
        proof {
            assert(code as nat / 16 / 16 == code as nat / 256) by (nonlinear_arith);
            assert(code as nat / 16 >= 16) by (nonlinear_arith)
                requires
                    code >= 0x100,
            ;
            assert(code as nat / 256 < 16) by (nonlinear_arith)
                requires
                    code < 0x1000,
            ;
            assert(spec_hex_repr(code as nat) == spec_hex_repr(code as nat / 16).push(
                hex_digit_char(code as nat % 16),
            ));
            assert(spec_hex_repr(code as nat / 16) == spec_hex_repr(code as nat / 256).push(
                hex_digit_char(code as nat / 16 % 16),
            ));
            assert(spec_hex_repr(code as nat / 256) == seq![hex_digit_char(code as nat / 256)]);
            assert(s@ =~= spec_hex_name(code));
        }
    } else {
        push_char(&mut s, hex_digit_char_exec((code / 4096) as u8));
        push_char(&mut s, hex_digit_char_exec(((code / 256) % 16) as u8));
        push_char(&mut s, hex_digit_char_exec(((code / 16) % 16) as u8));
        push_char(&mut s, hex_digit_char_exec((code % 16) as u8));
        proof {
            assert(code as nat / 16 / 16 == code as nat / 256) by (nonlinear_arith);
            assert(code as nat / 256 / 16 == code as nat / 4096) by (nonlinear_arith);
            assert(code as nat / 16 >= 16 && code as nat / 256 >= 16) by (nonlinear_arith)
                requires
                    code >= 0x1000,
            ;
            assert(code as nat / 4096 < 16) by (nonlinear_arith)
                requires
                    code < 0x10000,
            ;
            assert(spec_hex_repr(code as nat) == spec_hex_repr(code as nat / 16).push(
                hex_digit_char(code as nat % 16),
            ));
            assert(spec_hex_repr(code as nat / 16) == spec_hex_repr(code as nat / 256).push(
                hex_digit_char(code as nat / 16 % 16),
            ));
            assert(spec_hex_repr(code as nat / 256) == spec_hex_repr(code as nat / 4096).push(
                hex_digit_char(code as nat / 256 % 16),
            ));
            assert(spec_hex_repr(code as nat / 4096) == seq![hex_digit_char(code as nat / 4096)]);
            assert(s@ =~= spec_hex_name(code));
        }
    }
    s
}

/// The hex spelling of any value consists of hex digits and reads back
/// to the value it spells.
proof fn lemma_hex_repr_val(n: nat)
    ensures
        spec_hex_repr(n).len() >= 1,
        all_hex_digits(spec_hex_repr(n)),
        hex_seq_val(spec_hex_repr(n)) == n,
    decreases n,
{
    if n < 16 {
        assert(hex_seq_val(spec_hex_repr(n)) == hex_seq_val(seq![hex_digit_char(n)].drop_last())
            * 16 + hex_digit_val(hex_digit_char(n)));
        assert(seq![hex_digit_char(n)].drop_last() =~= Seq::<char>::empty());
    } else {
        lemma_hex_repr_val(n / 16);
        let s = spec_hex_repr(n);
        assert(s.drop_last() =~= spec_hex_repr(n / 16));
        assert(hex_seq_val(s) == hex_seq_val(spec_hex_repr(n / 16)) * 16 + hex_digit_val(
            hex_digit_char(n % 16),
        ));
        assert(n / 16 * 16 + n % 16 == n);
        assert forall|i: int| 0 <= i < s.len() implies is_hex_digit_char(#[trigger] s[i]) by {
            if i < s.len() - 1 {
                assert(s[i] == spec_hex_repr(n / 16)[i]);
            }
        }
    }
}

/// A zero prepended to a hex string does not change its value.
proof fn lemma_hex_leading_zero(s: Seq<char>)
    ensures
        hex_seq_val(seq!['0'] + s) == hex_seq_val(s),
    decreases s.len(),
{
    if s.len() == 0 {
        assert(seq!['0'] + s =~= seq!['0']);
        assert(hex_seq_val(seq!['0']) == hex_seq_val(seq!['0'].drop_last()) * 16 + hex_digit_val(
            '0',
        ));
        assert(seq!['0'].drop_last() =~= Seq::<char>::empty());
    } else {
        lemma_hex_leading_zero(s.drop_last());
        assert((seq!['0'] + s).drop_last() =~= seq!['0'] + s.drop_last());
        assert((seq!['0'] + s).last() == s.last());
    }
}

/// No seeded key name has `x` as its second character, so no seeded
/// name collides with a hex name.
proof fn lemma_hex_name_lookup_none(name: Seq<char>, i: nat)
    requires
        name.len() >= 2,
        name[1] == 'x',
        i <= KEY_COUNT,
    ensures
        name_lookup(name, i) is None,
    decreases KEY_COUNT - i,
{
    if i < KEY_COUNT {
        assert(key_name(i as int).len() < 2 || key_name(i as int)[1] != 'x');
        assert(key_name(i as int) != name);
        lemma_hex_name_lookup_none(name, i + 1);
    }
}

/// The hex name of every scan code reads back to that code: looking up
/// `0x` followed by the code's hex digits yields the code itself.
pub proof fn lemma_hex_name_round_trip(code: u16)
    ensures
        spec_get_scancode(spec_hex_name(code)) == Some(code),
{
    let name = spec_hex_name(code);
    lemma_hex_repr_val(code as nat);
    assert(name[1] == 'x');
    lemma_hex_name_lookup_none(name, 0);
    if code < 0x10 {
        assert(name.skip(2) =~= seq!['0'] + spec_hex_repr(code as nat));
        lemma_hex_leading_zero(spec_hex_repr(code as nat));
        assert forall|i: int| 0 <= i < name.skip(2).len() implies is_hex_digit_char(
            #[trigger] name.skip(2)[i],
        ) by {
            if i > 0 {
                assert(name.skip(2)[i] == spec_hex_repr(code as nat)[i - 1]);
            }
        }
    } else {
        assert(name.skip(2) =~= spec_hex_repr(code as nat));
    }
    assert(hex_name_val(name) == Some(code));
}

/// Canonical name for a scan code, if one is seeded; the name seeded
/// last wins where several alias one code.
pub fn get_name(scancode: u16) -> (r: Option<String>)
    ensures
        match r {
            Some(name) => spec_get_name(scancode) == Some(name@),
            None => spec_get_name(scancode) is None,
        },
{
    let table = init_maps();
    let mut n: usize = table.len();
    while n > 0
        invariant
            table_prefix(table@, KEY_COUNT as int),
            0 <= n <= KEY_COUNT,
            spec_get_name(scancode) == code_lookup(scancode, n as nat),
        decreases n,
    {
        if table[n - 1].1 == scancode {
            return Some(table[n - 1].0.clone());
        }
        n = n - 1;
    }
    None
}




/// A code that some entry carries is always found.
proof fn lemma_code_lookup_some(code: u16, n: nat, w: int)
    requires
        0 <= w < n <= KEY_COUNT,
        key_code(w) == code,
    ensures
        code_lookup(code, n) is Some,
    decreases n,
{
    if key_code(n - 1) != code {
        lemma_code_lookup_some(code, (n - 1) as nat, w);
    }
}

/// Whatever name the reverse lookup returns belongs to an entry that
/// carries the looked-up code.
proof fn lemma_code_lookup_alias(code: u16, n: nat)
    requires
        n <= KEY_COUNT,
    ensures
        match code_lookup(code, n) {
            Some(nm) => exists|j: int|
                0 <= j < n && #[trigger] key_name(j) == nm && key_code(j) == code,
            None => true,
        },
    decreases n,
{
    if n > 0 {
        if key_code(n - 1) == code {
            assert(key_name(n - 1) == code_lookup(code, n)->Some_0);
        } else {
            lemma_code_lookup_alias(code, (n - 1) as nat);
        }
    }
}

/// Every seeded scan code has a canonical name, and that name aliases
/// the code: it is itself seeded with the same code.
pub proof fn lemma_seeded_code_reverse_maps(i: int)
    requires
        0 <= i < KEY_COUNT,
    ensures
        spec_get_name(key_code(i)) is Some,
        exists|j: int|
            0 <= j < KEY_COUNT && #[trigger] key_name(j) == spec_get_name(key_code(i))->Some_0
                && key_code(j) == key_code(i),
{
    lemma_code_lookup_some(key_code(i), KEY_COUNT as nat, i);
    lemma_code_lookup_alias(key_code(i), KEY_COUNT as nat);
}


/// The characters of a name from position `k` on, read as base-256
/// digits, least significant first.
pub open spec fn name_fp(s: Seq<char>, k: int) -> int
    decreases s.len() - k,
{
    if 0 <= k < s.len() {
        (s[k] as int) + 256 * name_fp(s, k + 1)
    } else {
        0
    }
}

/// A numeric certificate of each seeded name: the name's characters
/// read as base-256 digits.  The 87 values are pairwise distinct,
/// which carries the names' distinctness as plain arithmetic.
pub open spec fn key_fp(i: int) -> int {
    if i == 0 {
        49
    } else if i == 1 {
        50
    } else if i == 2 {
        51
    } else if i == 3 {
        52
    } else if i == 4 {
        53
    } else if i == 5 {
        54
    } else if i == 6 {
        55
    } else if i == 7 {
        56
    } else if i == 8 {
        57
    } else if i == 9 {
        48
    } else if i == 10 {
        65
    } else if i == 11 {
        66
    } else if i == 12 {
        67
    } else if i == 13 {
        68
    } else if i == 14 {
        69
    } else if i == 15 {
        70
    } else if i == 16 {
        71
    } else if i == 17 {
        72
    } else if i == 18 {
        73
    } else if i == 19 {
        74
    } else if i == 20 {
        75
    } else if i == 21 {
        76
    } else if i == 22 {
        77
    } else if i == 23 {
        78
    } else if i == 24 {
        79
    } else if i == 25 {
        80
    } else if i == 26 {
        81
    } else if i == 27 {
        82
    } else if i == 28 {
        83
    } else if i == 29 {
        84
    } else if i == 30 {
        85
    } else if i == 31 {
        86
    } else if i == 32 {
        87
    } else if i == 33 {
        88
    } else if i == 34 {
        89
    } else if i == 35 {
        90
    } else if i == 36 {
        12614
    } else if i == 37 {
        12870
    } else if i == 38 {
        13126
    } else if i == 39 {
        13382
    } else if i == 40 {
        13638
    } else if i == 41 {
        13894
    } else if i == 42 {
        14150
    } else if i == 43 {
        14406
    } else if i == 44 {
        14662
    } else if i == 45 {
        3158342
    } else if i == 46 {
        3223878
    } else if i == 47 {
        3289414
    } else if i == 48 {
        111533344650053
    } else if i == 49 {
        495891409229
    } else if i == 50 {
        465491554629
    } else if i == 51 {
        1870282279968185737538
    } else if i == 52 {
        6447444
    } else if i == 53 {
        491328400965
    } else if i == 54 {
        1819440195
    } else if i == 55 {
        7814436136505730380
    } else if i == 56 {
        2037170762679067698515
    } else if i == 57 {
        435745158481
    } else if i == 58 {
        1871511205068033712450
    } else if i == 59 {
        2147201856722375697740
    } else if i == 60 {
        499934390355
    } else if i == 61 {
        1926775429158435774786
    } else if i == 62 {
        418447716163
    } else if i == 63 {
        110429673252176
    } else if i == 64 {
        448612363347
    } else if i == 65 {
        549683675320928212314450
    } else if i == 66 {
        32770125679977804
    } else if i == 67 {
        7629889
    } else if i == 68 {
        435459027027
    } else if i == 69 {
        7738150958897586499
    } else if i == 70 {
        929920334
    } else if i == 71 {
        946697550
    } else if i == 72 {
        963474766
    } else if i == 73 {
        8319677285186499918
    } else if i == 74 {
        879588686
    } else if i == 75 {
        896365902
    } else if i == 76 {
        913143118
    } else if i == 77 {
        32498730387993934
    } else if i == 78 {
        829257038
    } else if i == 79 {
        846034254
    } else if i == 80 {
        862811470
    } else if i == 81 {
        812479822
    } else if i == 82 {
        128021238216014
    } else if i == 83 {
        121381587935560
    } else if i == 84 {
        121364693280072
    } else if i == 85 {
        7953756538804925773
    } else if i == 86 {
        7020655965761595720
    } else {
        0
    }
}

proof fn lemma_fp_block_0(i: int)
    requires
        0 <= i < 11,
    ensures
        name_fp(key_name(i), 0) == key_fp(i),
{
    reveal_with_fuel(name_fp, 12);
    if i == 0 {
        assert(name_fp(key_name(0), 0) == 49);
    } else if i == 1 {
        assert(name_fp(key_name(1), 0) == 50);
    } else if i == 2 {
        assert(name_fp(key_name(2), 0) == 51);
    } else if i == 3 {
        assert(name_fp(key_name(3), 0) == 52);
    } else if i == 4 {
        assert(name_fp(key_name(4), 0) == 53);
    } else if i == 5 {
        assert(name_fp(key_name(5), 0) == 54);
    } else if i == 6 {
        assert(name_fp(key_name(6), 0) == 55);
    } else if i == 7 {
        assert(name_fp(key_name(7), 0) == 56);
    } else if i == 8 {
        assert(name_fp(key_name(8), 0) == 57);
    } else if i == 9 {
        assert(name_fp(key_name(9), 0) == 48);
    } else if i == 10 {
        assert(name_fp(key_name(10), 0) == 65);
    } else {
    }
}


proof fn lemma_fp_block_1(i: int)
    requires
        11 <= i < 22,
    ensures
        name_fp(key_name(i), 0) == key_fp(i),
{
    reveal_with_fuel(name_fp, 12);
    if i == 11 {
        assert(name_fp(key_name(11), 0) == 66);
    } else if i == 12 {
        assert(name_fp(key_name(12), 0) == 67);
    } else if i == 13 {
        assert(name_fp(key_name(13), 0) == 68);
    } else if i == 14 {
        assert(name_fp(key_name(14), 0) == 69);
    } else if i == 15 {
        assert(name_fp(key_name(15), 0) == 70);
    } else if i == 16 {
        assert(name_fp(key_name(16), 0) == 71);
    } else if i == 17 {
        assert(name_fp(key_name(17), 0) == 72);
    } else if i == 18 {
        assert(name_fp(key_name(18), 0) == 73);
    } else if i == 19 {
        assert(name_fp(key_name(19), 0) == 74);
    } else if i == 20 {
        assert(name_fp(key_name(20), 0) == 75);
    } else if i == 21 {
        assert(name_fp(key_name(21), 0) == 76);
    } else {
    }
}


proof fn lemma_fp_block_2(i: int)
    requires
        22 <= i < 33,
    ensures
        name_fp(key_name(i), 0) == key_fp(i),
{
    reveal_with_fuel(name_fp, 12);
    if i == 22 {
        assert(name_fp(key_name(22), 0) == 77);
    } else if i == 23 {
        assert(name_fp(key_name(23), 0) == 78);
    } else if i == 24 {
        assert(name_fp(key_name(24), 0) == 79);
    } else if i == 25 {
        assert(name_fp(key_name(25), 0) == 80);
    } else if i == 26 {
        assert(name_fp(key_name(26), 0) == 81);
    } else if i == 27 {
        assert(name_fp(key_name(27), 0) == 82);
    } else if i == 28 {
        assert(name_fp(key_name(28), 0) == 83);
    } else if i == 29 {
        assert(name_fp(key_name(29), 0) == 84);
    } else if i == 30 {
        assert(name_fp(key_name(30), 0) == 85);
    } else if i == 31 {
        assert(name_fp(key_name(31), 0) == 86);
    } else if i == 32 {
        assert(name_fp(key_name(32), 0) == 87);
    } else {
    }
}


proof fn lemma_fp_block_3(i: int)
    requires
        33 <= i < 44,
    ensures
        name_fp(key_name(i), 0) == key_fp(i),
{
    reveal_with_fuel(name_fp, 12);
    if i == 33 {
        assert(name_fp(key_name(33), 0) == 88);
    } else if i == 34 {
        assert(name_fp(key_name(34), 0) == 89);
    } else if i == 35 {
        assert(name_fp(key_name(35), 0) == 90);
    } else if i == 36 {
        assert(name_fp(key_name(36), 0) == 12614);
    } else if i == 37 {
        assert(name_fp(key_name(37), 0) == 12870);
    } else if i == 38 {
        assert(name_fp(key_name(38), 0) == 13126);
    } else if i == 39 {
        assert(name_fp(key_name(39), 0) == 13382);
    } else if i == 40 {
        assert(name_fp(key_name(40), 0) == 13638);
    } else if i == 41 {
        assert(name_fp(key_name(41), 0) == 13894);
    } else if i == 42 {
        assert(name_fp(key_name(42), 0) == 14150);
    } else if i == 43 {
        assert(name_fp(key_name(43), 0) == 14406);
    } else {
    }
}


proof fn lemma_fp_block_4(i: int)
    requires
        44 <= i < 55,
    ensures
        name_fp(key_name(i), 0) == key_fp(i),
{
    reveal_with_fuel(name_fp, 12);
    if i == 44 {
        assert(name_fp(key_name(44), 0) == 14662);
    } else if i == 45 {
        assert(name_fp(key_name(45), 0) == 3158342);
    } else if i == 46 {
        assert(name_fp(key_name(46), 0) == 3223878);
    } else if i == 47 {
        assert(name_fp(key_name(47), 0) == 3289414);
    } else if i == 48 {
        assert(name_fp(key_name(48), 0) == 111533344650053);
    } else if i == 49 {
        assert(name_fp(key_name(49), 0) == 495891409229);
    } else if i == 50 {
        assert(name_fp(key_name(50), 0) == 465491554629);
    } else if i == 51 {
        assert(name_fp(key_name(51), 0) == 1870282279968185737538);
    } else if i == 52 {
        assert(name_fp(key_name(52), 0) == 6447444);
    } else if i == 53 {
        assert(name_fp(key_name(53), 0) == 491328400965);
    } else if i == 54 {
        assert(name_fp(key_name(54), 0) == 1819440195);
    } else {
    }
}


proof fn lemma_fp_block_5(i: int)
    requires
        55 <= i < 66,
    ensures
        name_fp(key_name(i), 0) == key_fp(i),
{
    reveal_with_fuel(name_fp, 12);
    if i == 55 {
        assert(name_fp(key_name(55), 0) == 7814436136505730380);
    } else if i == 56 {
        assert(name_fp(key_name(56), 0) == 2037170762679067698515);
    } else if i == 57 {
        assert(name_fp(key_name(57), 0) == 435745158481);
    } else if i == 58 {
        assert(name_fp(key_name(58), 0) == 1871511205068033712450);
    } else if i == 59 {
        assert(name_fp(key_name(59), 0) == 2147201856722375697740);
    } else if i == 60 {
        assert(name_fp(key_name(60), 0) == 499934390355);
    } else if i == 61 {
        assert(name_fp(key_name(61), 0) == 1926775429158435774786);
    } else if i == 62 {
        assert(name_fp(key_name(62), 0) == 418447716163);
    } else if i == 63 {
        assert(name_fp(key_name(63), 0) == 110429673252176);
    } else if i == 64 {
        assert(name_fp(key_name(64), 0) == 448612363347);
    } else if i == 65 {
        assert(name_fp(key_name(65), 0) == 549683675320928212314450);
    } else {
    }
}


proof fn lemma_fp_block_6(i: int)
    requires
        66 <= i < 77,
    ensures
        name_fp(key_name(i), 0) == key_fp(i),
{
    reveal_with_fuel(name_fp, 12);
    if i == 66 {
        assert(name_fp(key_name(66), 0) == 32770125679977804);
    } else if i == 67 {
        assert(name_fp(key_name(67), 0) == 7629889);
    } else if i == 68 {
        assert(name_fp(key_name(68), 0) == 435459027027);
    } else if i == 69 {
        assert(name_fp(key_name(69), 0) == 7738150958897586499);
    } else if i == 70 {
        assert(name_fp(key_name(70), 0) == 929920334);
    } else if i == 71 {
        assert(name_fp(key_name(71), 0) == 946697550);
    } else if i == 72 {
        assert(name_fp(key_name(72), 0) == 963474766);
    } else if i == 73 {
        assert(name_fp(key_name(73), 0) == 8319677285186499918);
    } else if i == 74 {
        assert(name_fp(key_name(74), 0) == 879588686);
    } else if i == 75 {
        assert(name_fp(key_name(75), 0) == 896365902);
    } else if i == 76 {
        assert(name_fp(key_name(76), 0) == 913143118);
    } else {
    }
}


proof fn lemma_fp_block_7(i: int)
    requires
        77 <= i < 87,
    ensures
        name_fp(key_name(i), 0) == key_fp(i),
{
    reveal_with_fuel(name_fp, 12);
    if i == 77 {
        assert(name_fp(key_name(77), 0) == 32498730387993934);
    } else if i == 78 {
        assert(name_fp(key_name(78), 0) == 829257038);
    } else if i == 79 {
        assert(name_fp(key_name(79), 0) == 846034254);
    } else if i == 80 {
        assert(name_fp(key_name(80), 0) == 862811470);
    } else if i == 81 {
        assert(name_fp(key_name(81), 0) == 812479822);
    } else if i == 82 {
        assert(name_fp(key_name(82), 0) == 128021238216014);
    } else if i == 83 {
        assert(name_fp(key_name(83), 0) == 121381587935560);
    } else if i == 84 {
        assert(name_fp(key_name(84), 0) == 121364693280072);
    } else if i == 85 {
        assert(name_fp(key_name(85), 0) == 7953756538804925773);
    } else if i == 86 {
        assert(name_fp(key_name(86), 0) == 7020655965761595720);
    } else {
    }
}

/// Every seeded name's fingerprint equals its certificate value.
proof fn lemma_fp(i: int)
    requires
        0 <= i < KEY_COUNT,
    ensures
        name_fp(key_name(i), 0) == key_fp(i),
{
    if i < 11 {
        lemma_fp_block_0(i);
    } else if i < 22 {
        lemma_fp_block_1(i);
    } else if i < 33 {
        lemma_fp_block_2(i);
    } else if i < 44 {
        lemma_fp_block_3(i);
    } else if i < 55 {
        lemma_fp_block_4(i);
    } else if i < 66 {
        lemma_fp_block_5(i);
    } else if i < 77 {
        lemma_fp_block_6(i);
    } else if i < 87 {
        lemma_fp_block_7(i);
    } else {
    }
}

/// No two seeded entries share a name: their fingerprints are
/// pairwise distinct numbers.
proof fn lemma_seeded_names_distinct()
    ensures
        forall|i: int, j: int|
            0 <= i < j < KEY_COUNT ==> key_name(i) != key_name(j),
{
    assert forall|i: int, j: int| 0 <= i < j < KEY_COUNT implies key_name(i) != key_name(j) by {
        lemma_fp(i);
        lemma_fp(j);
        assert(key_fp(i) != key_fp(j));
    }
}

/// Looking a seeded name up from any point at or before its entry,
/// with no earlier entry sharing the name, finds its code.
proof fn lemma_name_lookup_hits(i: int, k: nat)
    requires
        0 <= i < KEY_COUNT,
        k <= i,
        forall|j: int| 0 <= j < i ==> key_name(j) != key_name(i),
    ensures
        name_lookup(key_name(i), k) == Some(key_code(i)),
    decreases i - k,
{
    if k < i {
        lemma_name_lookup_hits(i, k + 1);
    }
}

/// Every seeded name resolves to its own scan code: the table lookup
/// finds the entry itself, never another.
pub proof fn lemma_seeded_name_resolves(i: int)
    requires
        0 <= i < KEY_COUNT,
    ensures
        spec_get_scancode(key_name(i)) == Some(key_code(i)),
{
    lemma_seeded_names_distinct();
    lemma_name_lookup_hits(i, 0);
}


} // verus!
