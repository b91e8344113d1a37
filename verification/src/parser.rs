//! The script parser.
//!
//! Parsing is specified twice: once as mathematical functions over
//! `Seq<char>` (the `p_` functions, returning the parsed mirror value
//! and the position after it), and once as executable code whose
//! contracts say it returns exactly what the mathematical parser does.
//! Comments are erased by a separate pass before parsing proper, which
//! makes their invisibility a provable law rather than a reading of
//! the grammar.

use vstd::prelude::*;

use crate::ast::{
    elifs_dv, stmts_dv, Block, Condition, GlobalSetting, Macro, Script, SendExpression, SpecBlock,
    SpecCondition, SpecGlobalSetting, SpecMacro, SpecScript, SpecSendExpression, SpecStatement,
    SpecTriggerCombinations, SpecTriggerKey, Statement, TriggerCombinations, TriggerKey,
};
use crate::keymap::{hex_seq_val, is_hex_digit_char};
use crate::keymap::push_char;

verus! {

/// The whitespace characters the grammar ignores.
pub open spec fn is_space_char(c: char) -> bool {
    c == ' ' || c == '\t' || c == '\r' || c == '\n'
}

/// Characters an identifier may consist of.
pub open spec fn is_ident_char(c: char) -> bool {
    ('0' <= c && c <= '9') || ('a' <= c && c <= 'z') || ('A' <= c && c <= 'Z') || c == '_'
}

/// Characters a bare key name may consist of (no underscore).
pub open spec fn is_alnum_char(c: char) -> bool {
    ('0' <= c && c <= '9') || ('a' <= c && c <= 'z') || ('A' <= c && c <= 'Z')
}

/// Characters allowed inside a string literal: anything up to the
/// closing quote, with no escape processing (a backslash ends the run
/// and then fails the literal).
pub open spec fn is_strbody_char(c: char) -> bool {
    c != '"' && c != '\\'
}

/// Decimal digit characters.
pub open spec fn is_dec_digit_char(c: char) -> bool {
    '0' <= c && c <= '9'
}

/// Number of consecutive whitespace characters at position `i`.
pub open spec fn ws_len(s: Seq<char>, i: int) -> nat
    decreases s.len() - i,
{
    if 0 <= i < s.len() && is_space_char(s[i]) {
        1 + ws_len(s, i + 1)
    } else {
        0
    }
}

/// Number of consecutive identifier characters at position `i`.
pub open spec fn ident_len(s: Seq<char>, i: int) -> nat
    decreases s.len() - i,
{
    if 0 <= i < s.len() && is_ident_char(s[i]) {
        1 + ident_len(s, i + 1)
    } else {
        0
    }
}

/// Number of consecutive alphanumeric characters at position `i`.
pub open spec fn alnum_len(s: Seq<char>, i: int) -> nat
    decreases s.len() - i,
{
    if 0 <= i < s.len() && is_alnum_char(s[i]) {
        1 + alnum_len(s, i + 1)
    } else {
        0
    }
}

/// Number of consecutive string-body characters at position `i`.
pub open spec fn strbody_len(s: Seq<char>, i: int) -> nat
    decreases s.len() - i,
{
    if 0 <= i < s.len() && is_strbody_char(s[i]) {
        1 + strbody_len(s, i + 1)
    } else {
        0
    }
}

/// Number of consecutive decimal digits at position `i`.
pub open spec fn dec_len(s: Seq<char>, i: int) -> nat
    decreases s.len() - i,
{
    if 0 <= i < s.len() && is_dec_digit_char(s[i]) {
        1 + dec_len(s, i + 1)
    } else {
        0
    }
}

/// Number of consecutive hexadecimal digits at position `i`.
pub open spec fn hexdig_len(s: Seq<char>, i: int) -> nat
    decreases s.len() - i,
{
    if 0 <= i < s.len() && is_hex_digit_char(s[i]) {
        1 + hexdig_len(s, i + 1)
    } else {
        0
    }
}

/// True when the literal `lit` occurs in `s` starting at position `i`.
pub open spec fn lit_match(s: Seq<char>, i: int, lit: Seq<char>) -> bool {
    0 <= i && i + lit.len() <= s.len() && s.subrange(i, i + lit.len()) == lit
}

/// Value of a big-endian string of decimal digits.
pub open spec fn dec_seq_val(s: Seq<char>) -> nat
    decreases s.len(),
{
    if s.len() == 0 {
        0
    } else {
        dec_seq_val(s.drop_last()) * 10 + ((s.last() as int - '0' as int) as nat)
    }
}

/// A longer run of decimal digits never has a smaller value.
pub(crate) proof fn lemma_dec_seq_val_take_mono(s: Seq<char>, k: int)
    requires
        0 <= k <= s.len(),
    ensures
        dec_seq_val(s.take(k)) <= dec_seq_val(s),
    decreases s.len() - k,
{
    if k < s.len() {
        lemma_dec_seq_val_take_mono(s, k + 1);
        assert(s.take(k + 1).drop_last() =~= s.take(k));
        assert(dec_seq_val(s.take(k + 1)) == dec_seq_val(s.take(k)) * 10 + ((s.take(
            k + 1,
        ).last() as int - '0' as int) as nat));
    } else {
        assert(s.take(k) =~= s);
    }
}

// ------------------------------------------------------------------
// Comment stripping
// ------------------------------------------------------------------

/// Scanner mode while erasing comments.
pub enum StripMode {
    /// Ordinary code.
    Code,
    /// Inside a double-quoted string literal.
    Quoted,
    /// Inside a `//` comment, up to the next newline.
    Comment,
}

/// Erases `//` comments from the suffix `s`, starting in mode `m`.
/// Quotes are tracked so that `//` inside a string literal is kept;
/// the newline that ends a comment is kept as whitespace.
pub open spec fn strip_rec(s: Seq<char>, m: StripMode) -> Seq<char>
    decreases s.len(),
{
    if s.len() == 0 {
        seq![]
    } else {
        match m {
            StripMode::Code => {
                if s[0] == '"' {
                    seq!['"'] + strip_rec(s.skip(1), StripMode::Quoted)
                } else if s[0] == '/' && s.len() > 1 && s[1] == '/' {
                    strip_rec(s.skip(2), StripMode::Comment)
                } else {
                    seq![s[0]] + strip_rec(s.skip(1), StripMode::Code)
                }
            },
            StripMode::Quoted => {
                if s[0] == '"' {
                    seq!['"'] + strip_rec(s.skip(1), StripMode::Code)
                } else {
                    seq![s[0]] + strip_rec(s.skip(1), StripMode::Quoted)
                }
            },
            StripMode::Comment => {
                if s[0] == '\n' {
                    seq!['\n'] + strip_rec(s.skip(1), StripMode::Code)
                } else {
                    strip_rec(s.skip(1), StripMode::Comment)
                }
            },
        }
    }
}

/// What `strip_comments` returns: the text with every comment erased.
pub open spec fn spec_strip_comments(s: Seq<char>) -> Seq<char> {
    strip_rec(s, StripMode::Code)
}

/// Outside a comment, the first character of the stripped text is the
/// first character of the input, whenever that character is not `/`.
proof fn lemma_strip_first(s: Seq<char>)
    requires
        s.len() > 0,
        s[0] != '/',
    ensures
        strip_rec(s, StripMode::Code).len() > 0,
        strip_rec(s, StripMode::Code)[0] == s[0],
{
}

/// Stripping is idempotent: a second pass over already-stripped text
/// changes nothing.  Stated for each scanner mode; the `Code` case is
/// the one the parser relies on.
proof fn lemma_strip_idempotent(s: Seq<char>, m: StripMode)
    ensures
        match m {
            StripMode::Code => strip_rec(strip_rec(s, StripMode::Code), StripMode::Code)
                == strip_rec(s, StripMode::Code),
            StripMode::Quoted => strip_rec(strip_rec(s, StripMode::Quoted), StripMode::Quoted)
                == strip_rec(s, StripMode::Quoted),
            StripMode::Comment => strip_rec(strip_rec(s, StripMode::Comment), StripMode::Code)
                == strip_rec(s, StripMode::Comment),
        },
    decreases s.len(),
{
    if s.len() == 0 {
        return ;
    }
    let rest = s.skip(1);
    match m {
        StripMode::Code => {
            if s[0] == '"' {
                lemma_strip_idempotent(rest, StripMode::Quoted);
                let t = seq!['"'] + strip_rec(rest, StripMode::Quoted);
                assert(t.skip(1) =~= strip_rec(rest, StripMode::Quoted));
            } else if s[0] == '/' && s.len() > 1 && s[1] == '/' {
                lemma_strip_idempotent(s.skip(2), StripMode::Comment);
            } else {
                lemma_strip_idempotent(rest, StripMode::Code);
                let t = seq![s[0]] + strip_rec(rest, StripMode::Code);
                assert(t.skip(1) =~= strip_rec(rest, StripMode::Code));
                if s[0] == '/' {
                    // No comment starts here: the next input character is
                    // not `/`, and stripping keeps it in front.
                    if rest.len() > 0 {
                        assert(rest[0] != '/');
                        lemma_strip_first(rest);
                        assert(t.len() > 1 && t[1] == rest[0]);
                    }
                }
            }
        },
        StripMode::Quoted => {
            if s[0] == '"' {
                lemma_strip_idempotent(rest, StripMode::Code);
                let t = seq!['"'] + strip_rec(rest, StripMode::Code);
                assert(t.skip(1) =~= strip_rec(rest, StripMode::Code));
            } else {
                lemma_strip_idempotent(rest, StripMode::Quoted);
                let t = seq![s[0]] + strip_rec(rest, StripMode::Quoted);
                assert(t.skip(1) =~= strip_rec(rest, StripMode::Quoted));
            }
        },
        StripMode::Comment => {
            if s[0] == '\n' {
                lemma_strip_idempotent(rest, StripMode::Code);
                let t = seq!['\n'] + strip_rec(rest, StripMode::Code);
                assert(t.skip(1) =~= strip_rec(rest, StripMode::Code));
            } else {
                lemma_strip_idempotent(rest, StripMode::Comment);
            }
        },
    }
}

/// Erases `//` line comments (outside string literals) from a script;
/// everything else, including the newline that ends a comment, is kept
/// unchanged.
pub fn strip_comments(s: &str) -> (r: String)
    ensures
        r@ == spec_strip_comments(s@),
{
    let n = s.unicode_len();
    let mut r = String::new();
    let mut i: usize = 0;
    let mut quoted = false;
    let mut comment = false;
    proof {
        assert(s@.skip(0) =~= s@);
    }
    while i < n
        invariant
            0 <= i <= n == s@.len(),
            !(quoted && comment),
            spec_strip_comments(s@) == r@ + strip_rec(
                s@.skip(i as int),
                if quoted {
                    StripMode::Quoted
                } else if comment {
                    StripMode::Comment
                } else {
                    StripMode::Code
                },
            ),
        decreases n - i,
    {
        let ghost suf = s@.skip(i as int);
        let ghost prev = r@;
        proof {
            assert(suf.len() == n - i);
            assert(suf[0] == s@[i as int]);
            assert(suf.skip(1) =~= s@.skip(i as int + 1));
        }
        let c = s.get_char(i);
        if comment {
            if c == '\n' {
                push_char(&mut r, c);
                comment = false;
            }
            i = i + 1;
        } else if quoted {
            push_char(&mut r, c);
            if c == '"' {
                quoted = false;
            }
            i = i + 1;
        } else {
            if c == '"' {
                push_char(&mut r, c);
                quoted = true;
                i = i + 1;
            } else if c == '/' && i + 1 < n && s.get_char(i + 1) == '/' {
                proof {
                    assert(suf.len() > 1 && suf[1] == s@[i as int + 1]);
                    assert(suf.skip(2) =~= s@.skip(i as int + 2));
                }
                comment = true;
                i = i + 2;
            } else {
                push_char(&mut r, c);
                i = i + 1;
            }
        }
        proof {
            let m2 = if quoted {
                StripMode::Quoted
            } else if comment {
                StripMode::Comment
            } else {
                StripMode::Code
            };
            let tail = strip_rec(s@.skip(i as int), m2);
            assert(r@ == prev || r@ == prev.push(suf[0]));
            if r@ == prev.push(suf[0]) {
                assert(prev.push(suf[0]) + tail =~= prev + (seq![suf[0]] + tail));
            }
        }
    }
    proof {
        assert(s@.skip(n as int) =~= Seq::<char>::empty());
    }
    r
}


// ------------------------------------------------------------------
// The mathematical parser
//
// Each `p_` function consumes from position `i` of the stripped text
// and returns the parsed mirror value with the position after it, or
// nothing where the production does not match.  List parsers return
// the collected items and the stopping position.  A few comparisons of
// returned positions guard the termination measure; parsers only ever
// advance, so those branches are never taken.
// ------------------------------------------------------------------

/// True when character `c` stands at position `i`.
pub open spec fn at_char(s: Seq<char>, i: int, c: char) -> bool {
    0 <= i < s.len() && s[i] == c
}

/// Position after the whitespace run at `i`.
pub open spec fn after_ws(s: Seq<char>, i: int) -> int {
    i + ws_len(s, i)
}

/// An identifier: one or more letters, digits or underscores.
pub open spec fn p_ident(s: Seq<char>, i: int) -> Option<(Seq<char>, int)> {
    let n = ident_len(s, i);
    if 0 <= i && n > 0 {
        Some((s.subrange(i, i + n), i + n))
    } else {
        None
    }
}

/// A bare alphanumeric run (key names; no underscore).
pub open spec fn p_alnum(s: Seq<char>, i: int) -> Option<(Seq<char>, int)> {
    let n = alnum_len(s, i);
    if 0 <= i && n > 0 {
        Some((s.subrange(i, i + n), i + n))
    } else {
        None
    }
}

/// A double-quoted string literal with no escape processing: a
/// backslash before the closing quote fails the production.
pub open spec fn p_string_lit(s: Seq<char>, i: int) -> Option<(Seq<char>, int)> {
    if at_char(s, i, '"') {
        let n = strbody_len(s, i + 1);
        let e = i + 1 + n;
        if at_char(s, e, '"') {
            Some((s.subrange(i + 1, e), e + 1))
        } else {
            None
        }
    } else {
        None
    }
}

/// One or more decimal digits.
pub open spec fn p_dec(s: Seq<char>, i: int) -> Option<(Seq<char>, int)> {
    let n = dec_len(s, i);
    if 0 <= i && n > 0 {
        Some((s.subrange(i, i + n), i + n))
    } else {
        None
    }
}

/// One or more hexadecimal digits.
pub open spec fn p_hexdig(s: Seq<char>, i: int) -> Option<(Seq<char>, int)> {
    let n = hexdig_len(s, i);
    if 0 <= i && n > 0 {
        Some((s.subrange(i, i + n), i + n))
    } else {
        None
    }
}

/// A millisecond count: digit overflow beyond `u64` reads as zero.
pub open spec fn wait_val(d: Seq<char>) -> u64 {
    if dec_seq_val(d) <= u64::MAX {
        dec_seq_val(d) as u64
    } else {
        0
    }
}

/// A loop count: digit overflow beyond `usize` reads as one.
pub open spec fn loop_val(d: Seq<char>) -> usize {
    if dec_seq_val(d) <= usize::MAX {
        dec_seq_val(d) as usize
    } else {
        1
    }
}

/// A scan code from hex digits: overflow beyond 16 bits reads as zero.
pub open spec fn hex_val16(d: Seq<char>) -> u16 {
    if hex_seq_val(d) <= 0xFFFF {
        hex_seq_val(d) as u16
    } else {
        0
    }
}

/// An extended physical key: `#E0/0x` and hex digits.
pub open spec fn p_ext_key(s: Seq<char>, i: int) -> Option<(SpecTriggerKey, int)> {
    if lit_match(s, i, "#E0/0x"@) {
        match p_hexdig(s, i + 6) {
            Some((d, j)) => Some((SpecTriggerKey::ExtendedPhysical(hex_val16(d)), j)),
            None => None,
        }
    } else {
        None
    }
}

/// A physical key: `#0x` and hex digits.
pub open spec fn p_phys_key(s: Seq<char>, i: int) -> Option<(SpecTriggerKey, int)> {
    if lit_match(s, i, "#0x"@) {
        match p_hexdig(s, i + 3) {
            Some((d, j)) => Some((SpecTriggerKey::Physical(hex_val16(d)), j)),
            None => None,
        }
    } else {
        None
    }
}

/// A symbolic key: `Code_` before a name, or a bare name.
pub open spec fn p_virt_key(s: Seq<char>, i: int) -> Option<(SpecTriggerKey, int)> {
    if lit_match(s, i, "Code_"@) && alnum_len(s, i + 5) > 0 {
        let n = alnum_len(s, i + 5);
        Some((SpecTriggerKey::Virtual(s.subrange(i + 5, i + 5 + n)), i + 5 + n))
    } else {
        match p_alnum(s, i) {
            Some((name, j)) => Some((SpecTriggerKey::Virtual(name), j)),
            None => None,
        }
    }
}

/// One trigger key, trying the extended, physical and symbolic forms
/// in that order.
pub open spec fn p_trigger_key(s: Seq<char>, i: int) -> Option<(SpecTriggerKey, int)> {
    match p_ext_key(s, i) {
        Some(r) => Some(r),
        None => match p_phys_key(s, i) {
            Some(r) => Some(r),
            None => p_virt_key(s, i),
        },
    }
}

/// Further `+ key` links of a combination; stops before a `+` that no
/// key follows.
pub open spec fn p_more_keys(s: Seq<char>, i: int) -> (Seq<SpecTriggerKey>, int)
    decreases s.len() - i,
{
    let a = after_ws(s, i);
    if at_char(s, a, '+') {
        let b = after_ws(s, a + 1);
        match p_trigger_key(s, b) {
            Some((k, j)) => if i < j <= s.len() {
                let (ks, e) = p_more_keys(s, j);
                (seq![k] + ks, e)
            } else {
                (seq![], i)
            },
            None => (seq![], i),
        }
    } else {
        (seq![], i)
    }
}

/// A trigger combination: keys joined by `+`.
pub open spec fn p_combo(s: Seq<char>, i: int) -> Option<(SpecTriggerCombinations, int)> {
    match p_trigger_key(s, i) {
        Some((k, j)) => {
            let (ks, e) = p_more_keys(s, j);
            Some((SpecTriggerCombinations(seq![k] + ks), e))
        },
        None => None,
    }
}

/// Condition arguments: a single combination, as a one-element list of
/// alternatives.
pub open spec fn p_cond_args(s: Seq<char>, i: int) -> Option<(Seq<SpecTriggerCombinations>, int)> {
    match p_combo(s, i) {
        Some((c, j)) => Some((seq![c], j)),
        None => None,
    }
}

/// A condition of the form `keyword ( combo )`.
pub open spec fn p_cond_plain(s: Seq<char>, i: int, kw: Seq<char>) -> Option<
    (Seq<SpecTriggerCombinations>, int),
> {
    if lit_match(s, i, kw) {
        let a = after_ws(s, i + kw.len());
        if at_char(s, a, '(') {
            let b = after_ws(s, a + 1);
            match p_cond_args(s, b) {
                Some((cs, j)) => {
                    let e = after_ws(s, j);
                    if at_char(s, e, ')') {
                        Some((cs, e + 1))
                    } else {
                        None
                    }
                },
                None => None,
            }
        } else {
            None
        }
    } else {
        None
    }
}

/// A condition of the form `keyword ( combo , millis )`.
pub open spec fn p_cond_timed(s: Seq<char>, i: int, kw: Seq<char>) -> Option<
    ((Seq<SpecTriggerCombinations>, u64), int),
> {
    if lit_match(s, i, kw) {
        let a = after_ws(s, i + kw.len());
        if at_char(s, a, '(') {
            let b = after_ws(s, a + 1);
            match p_cond_args(s, b) {
                Some((cs, j)) => {
                    let e = after_ws(s, j);
                    if at_char(s, e, ',') {
                        let f = after_ws(s, e + 1);
                        match p_dec(s, f) {
                            Some((d, g)) => {
                                let h = after_ws(s, g);
                                if at_char(s, h, ')') {
                                    Some(((cs, wait_val(d)), h + 1))
                                } else {
                                    None
                                }
                            },
                            None => None,
                        }
                    } else {
                        None
                    }
                },
                None => None,
            }
        } else {
            None
        }
    } else {
        None
    }
}

/// A condition, trying the five keyword forms in the order the
/// grammar lists them (timed forms before their plain prefixes).
pub open spec fn p_condition(s: Seq<char>, i: int) -> Option<(SpecCondition, int)> {
    match p_cond_timed(s, i, "wait_input_time"@) {
        Some(((cs, t), j)) => Some((SpecCondition::WaitInputTime(cs, t), j)),
        None => match p_cond_plain(s, i, "wait_input"@) {
            Some((cs, j)) => Some((SpecCondition::WaitInput(cs), j)),
            None => match p_cond_plain(s, i, "now_input"@) {
                Some((cs, j)) => Some((SpecCondition::NowInput(cs), j)),
                None => match p_cond_timed(s, i, "wait_released_time"@) {
                    Some(((cs, t), j)) => Some((SpecCondition::WaitReleasedTime(cs, t), j)),
                    None => match p_cond_plain(s, i, "wait_released"@) {
                        Some((cs, j)) => Some((SpecCondition::WaitReleased(cs), j)),
                        None => None,
                    },
                },
            },
        },
    }
}

/// A statement of the form `keyword : "command" ;`.
pub open spec fn p_run_like(s: Seq<char>, i: int, kw: Seq<char>) -> Option<(Seq<char>, int)> {
    if lit_match(s, i, kw) {
        let a = after_ws(s, i + kw.len());
        if at_char(s, a, ':') {
            let b = after_ws(s, a + 1);
            match p_string_lit(s, b) {
                Some((cmd, j)) => {
                    let e = after_ws(s, j);
                    if at_char(s, e, ';') {
                        Some((cmd, e + 1))
                    } else {
                        None
                    }
                },
                None => None,
            }
        } else {
            None
        }
    } else {
        None
    }
}

/// A fallback statement: `FailRun : "cmd"` or `FailExecute : "cmd"`,
/// with no terminating semicolon of its own.
pub open spec fn p_fail_stmt(s: Seq<char>, i: int) -> Option<(SpecStatement, int)> {
    match p_fail_like(s, i, "FailRun"@) {
        Some((cmd, j)) => Some((SpecStatement::Run(cmd), j)),
        None => match p_fail_like(s, i, "FailExecute"@) {
            Some((cmd, j)) => Some((SpecStatement::Execute(cmd), j)),
            None => None,
        },
    }
}

/// `keyword : "command"` without a semicolon.
pub open spec fn p_fail_like(s: Seq<char>, i: int, kw: Seq<char>) -> Option<(Seq<char>, int)> {
    if lit_match(s, i, kw) {
        let a = after_ws(s, i + kw.len());
        if at_char(s, a, ':') {
            let b = after_ws(s, a + 1);
            p_string_lit(s, b)
        } else {
            None
        }
    } else {
        None
    }
}

/// A statement of the form `keyword : "cmd" : fallback ;`.
pub open spec fn p_try_like(s: Seq<char>, i: int, kw: Seq<char>) -> Option<
    ((Seq<char>, SpecStatement), int),
> {
    if lit_match(s, i, kw) {
        let a = after_ws(s, i + kw.len());
        if at_char(s, a, ':') {
            let b = after_ws(s, a + 1);
            match p_string_lit(s, b) {
                Some((cmd, j)) => {
                    let e = after_ws(s, j);
                    if at_char(s, e, ':') {
                        let f = after_ws(s, e + 1);
                        match p_fail_stmt(s, f) {
                            Some((fb, g)) => {
                                let h = after_ws(s, g);
                                if at_char(s, h, ';') {
                                    Some(((cmd, fb), h + 1))
                                } else {
                                    None
                                }
                            },
                            None => None,
                        }
                    } else {
                        None
                    }
                },
                None => None,
            }
        } else {
            None
        }
    } else {
        None
    }
}

/// A send expression: a typed string or a key.
pub open spec fn p_send_expr(s: Seq<char>, i: int) -> Option<(SpecSendExpression, int)> {
    match p_string_expr(s, i) {
        Some(r) => Some(r),
        None => match p_trigger_key(s, i) {
            Some((k, j)) => Some((SpecSendExpression::Key(k), j)),
            None => None,
        },
    }
}

/// `String ( "text" )`.
pub open spec fn p_string_expr(s: Seq<char>, i: int) -> Option<(SpecSendExpression, int)> {
    if lit_match(s, i, "String"@) {
        let a = after_ws(s, i + 6);
        if at_char(s, a, '(') {
            let b = after_ws(s, a + 1);
            match p_string_lit(s, b) {
                Some((text, j)) => {
                    let e = after_ws(s, j);
                    if at_char(s, e, ')') {
                        Some((SpecSendExpression::String(text), e + 1))
                    } else {
                        None
                    }
                },
                None => None,
            }
        } else {
            None
        }
    } else {
        None
    }
}

/// Further `+ expression` links of a send list.
pub open spec fn p_more_send_exprs(s: Seq<char>, i: int) -> (Seq<SpecSendExpression>, int)
    decreases s.len() - i,
{
    let a = after_ws(s, i);
    if at_char(s, a, '+') {
        let b = after_ws(s, a + 1);
        match p_send_expr(s, b) {
            Some((x, j)) => if i < j <= s.len() {
                let (xs, e) = p_more_send_exprs(s, j);
                (seq![x] + xs, e)
            } else {
                (seq![], i)
            },
            None => (seq![], i),
        }
    } else {
        (seq![], i)
    }
}

/// `Send : expr + expr + ... ;`.
pub open spec fn p_send(s: Seq<char>, i: int) -> Option<(Seq<SpecSendExpression>, int)> {
    if lit_match(s, i, "Send"@) {
        let a = after_ws(s, i + 4);
        if at_char(s, a, ':') {
            let b = after_ws(s, a + 1);
            match p_send_expr(s, b) {
                Some((x, j)) => {
                    let (xs, e) = p_more_send_exprs(s, j);
                    let f = after_ws(s, e);
                    if at_char(s, f, ';') {
                        Some((seq![x] + xs, f + 1))
                    } else {
                        None
                    }
                },
                None => None,
            }
        } else {
            None
        }
    } else {
        None
    }
}

/// `wait ( millis ) ;`.
pub open spec fn p_wait(s: Seq<char>, i: int) -> Option<(u64, int)> {
    if lit_match(s, i, "wait"@) {
        let a = after_ws(s, i + 4);
        if at_char(s, a, '(') {
            let b = after_ws(s, a + 1);
            match p_dec(s, b) {
                Some((d, j)) => {
                    let e = after_ws(s, j);
                    if at_char(s, e, ')') {
                        let f = after_ws(s, e + 1);
                        if at_char(s, f, ';') {
                            Some((wait_val(d), f + 1))
                        } else {
                            None
                        }
                    } else {
                        None
                    }
                },
                None => None,
            }
        } else {
            None
        }
    } else {
        None
    }
}

/// A macro invocation: `name ! ;` with the bang hard against the name.
pub open spec fn p_macro_call(s: Seq<char>, i: int) -> Option<(Seq<char>, int)> {
    match p_ident(s, i) {
        Some((name, j)) => if at_char(s, j, '!') {
            let e = after_ws(s, j + 1);
            if at_char(s, e, ';') {
                Some((name, e + 1))
            } else {
                None
            }
        } else {
            None
        },
        None => None,
    }
}

/// Zero or more statements, each followed by whitespace; stops at the
/// first position where no statement matches.
pub open spec fn p_statements(s: Seq<char>, i: int) -> (Seq<SpecStatement>, int)
    decreases s.len() - i, 2int,
{
    match p_statement(s, i) {
        Some((st, j)) => if i < j <= s.len() {
            let w = after_ws(s, j);
            if w <= s.len() {
                let (sts, e) = p_statements(s, w);
                (seq![st] + sts, e)
            } else {
                (seq![st], j)
            }
        } else {
            (seq![], i)
        },
        None => (seq![], i),
    }
}

/// A brace-delimited body of statements.
pub open spec fn p_body_block(s: Seq<char>, i: int) -> Option<(Seq<SpecStatement>, int)>
    decreases s.len() - i, 0int,
{
    let a = after_ws(s, i);
    if at_char(s, a, '{') && a + 1 <= s.len() {
        let b = after_ws(s, a + 1);
        if i < b <= s.len() {
            let (sts, j) = p_statements(s, b);
            let e = after_ws(s, j);
            if at_char(s, e, '}') {
                Some((sts, e + 1))
            } else {
                None
            }
        } else {
            None
        }
    } else {
        None
    }
}

/// Zero or more `elif condition body` arms, each preceded by
/// whitespace.
pub open spec fn p_elifs(s: Seq<char>, i: int) -> (Seq<(SpecCondition, Seq<SpecStatement>)>, int)
    decreases s.len() - i, 1int,
{
    let a = after_ws(s, i);
    if lit_match(s, a, "elif"@) && ws_len(s, a + 4) > 0 {
        let b = after_ws(s, a + 4);
        match p_condition(s, b) {
            Some((cond, j)) => if i < j <= s.len() {
                match p_body_block(s, j) {
                    Some((body, k)) => if i < k <= s.len() {
                        let (arms, e) = p_elifs(s, k);
                        (seq![(cond, body)] + arms, e)
                    } else {
                        (seq![], i)
                    },
                    None => (seq![], i),
                }
            } else {
                (seq![], i)
            },
            None => (seq![], i),
        }
    } else {
        (seq![], i)
    }
}

/// `if condition body (elif condition body)* (else body)?`.
pub open spec fn p_if(s: Seq<char>, i: int) -> Option<(SpecStatement, int)>
    decreases s.len() - i, 0int,
{
    if lit_match(s, i, "if"@) && ws_len(s, i + 2) > 0 {
        let a = after_ws(s, i + 2);
        match p_condition(s, a) {
            Some((cond, j)) => if i < j <= s.len() {
                match p_body_block(s, j) {
                    Some((tb, k)) => if i < k <= s.len() {
                        let (arms, m) = p_elifs(s, k);
                        let c2 = after_ws(s, m);
                        if lit_match(s, c2, "else"@) && i < c2 + 4 <= s.len() {
                            match p_body_block(s, c2 + 4) {
                                Some((eb, e)) => Some(
                                    (
                                        SpecStatement::If {
                                            condition: cond,
                                            then_branch: tb,
                                            else_if_branches: arms,
                                            else_branch: Some(eb),
                                        },
                                        e,
                                    ),
                                ),
                                None => Some(
                                    (
                                        SpecStatement::If {
                                            condition: cond,
                                            then_branch: tb,
                                            else_if_branches: arms,
                                            else_branch: None,
                                        },
                                        c2,
                                    ),
                                ),
                            }
                        } else {
                            Some(
                                (
                                    SpecStatement::If {
                                        condition: cond,
                                        then_branch: tb,
                                        else_if_branches: arms,
                                        else_branch: None,
                                    },
                                    c2,
                                ),
                            )
                        }
                    } else {
                        None
                    },
                    None => None,
                }
            } else {
                None
            },
            None => None,
        }
    } else {
        None
    }
}

/// `loop count body`.
pub open spec fn p_loop(s: Seq<char>, i: int) -> Option<(SpecStatement, int)>
    decreases s.len() - i, 0int,
{
    if lit_match(s, i, "loop"@) && ws_len(s, i + 4) > 0 {
        let a = after_ws(s, i + 4);
        match p_dec(s, a) {
            Some((d, j)) => if i < j <= s.len() {
                match p_body_block(s, j) {
                    Some((body, k)) => Some(
                        (SpecStatement::Loop { count: loop_val(d), body: body }, k),
                    ),
                    None => None,
                }
            } else {
                None
            },
            None => None,
        }
    } else {
        None
    }
}

/// One statement, trying the productions in the grammar's order.
pub open spec fn p_statement(s: Seq<char>, i: int) -> Option<(SpecStatement, int)>
    decreases s.len() - i, 1int,
{
    match p_try_like(s, i, "TryRun"@) {
        Some(((cmd, fb), j)) => Some(
            (SpecStatement::TryRun { command: cmd, failure: seq![fb] }, j),
        ),
        None => match p_try_like(s, i, "TryExecute"@) {
            Some(((cmd, fb), j)) => Some(
                (SpecStatement::TryExecute { command: cmd, failure: seq![fb] }, j),
            ),
            None => match p_run_like(s, i, "Run"@) {
                Some((cmd, j)) => Some((SpecStatement::Run(cmd), j)),
                None => match p_run_like(s, i, "Execute"@) {
                    Some((cmd, j)) => Some((SpecStatement::Execute(cmd), j)),
                    None => match p_send(s, i) {
                        Some((xs, j)) => Some((SpecStatement::Send(xs), j)),
                        None => match p_wait(s, i) {
                            Some((ms, j)) => Some((SpecStatement::Wait(ms), j)),
                            None => match p_if(s, i) {
                                Some(r) => Some(r),
                                None => match p_loop(s, i) {
                                    Some(r) => Some(r),
                                    None => match p_macro_call(s, i) {
                                        Some((name, j)) => Some(
                                            (SpecStatement::MacroCall(name), j),
                                        ),
                                        None => None,
                                    },
                                },
                            },
                        },
                    },
                },
            },
        },
    }
}

/// `CLI = "shell" ;`.
pub open spec fn p_global_setting(s: Seq<char>, i: int) -> Option<(SpecGlobalSetting, int)> {
    if lit_match(s, i, "CLI"@) {
        let a = after_ws(s, i + 3);
        if at_char(s, a, '=') {
            let b = after_ws(s, a + 1);
            match p_string_lit(s, b) {
                Some((v, j)) => {
                    let e = after_ws(s, j);
                    if at_char(s, e, ';') {
                        Some((SpecGlobalSetting::Cli(v), e + 1))
                    } else {
                        None
                    }
                },
                None => None,
            }
        } else {
            None
        }
    } else {
        None
    }
}

/// `macro name body`.
pub open spec fn p_macro_def(s: Seq<char>, i: int) -> Option<(SpecMacro, int)> {
    if lit_match(s, i, "macro"@) && ws_len(s, i + 5) > 0 {
        let a = after_ws(s, i + 5);
        match p_ident(s, a) {
            Some((name, j)) => if i < j {
                match p_body_block(s, j) {
                    Some((body, k)) => Some((SpecMacro { name: name, body: body }, k)),
                    None => None,
                }
            } else {
                None
            },
            None => None,
        }
    } else {
        None
    }
}

/// Zero or more global settings, each followed by whitespace.
pub open spec fn p_globals(s: Seq<char>, i: int) -> (Seq<SpecGlobalSetting>, int)
    decreases s.len() - i,
{
    match p_global_setting(s, i) {
        Some((g, j)) => if i < j <= s.len() {
            let w = after_ws(s, j);
            if w <= s.len() {
                let (gs, e) = p_globals(s, w);
                (seq![g] + gs, e)
            } else {
                (seq![g], j)
            }
        } else {
            (seq![], i)
        },
        None => (seq![], i),
    }
}

/// Zero or more macro definitions, each followed by whitespace.
pub open spec fn p_macros(s: Seq<char>, i: int) -> (Seq<SpecMacro>, int)
    decreases s.len() - i,
{
    match p_macro_def(s, i) {
        Some((m, j)) => if i < j <= s.len() {
            let w = after_ws(s, j);
            if w <= s.len() {
                let (ms, e) = p_macros(s, w);
                (seq![m] + ms, e)
            } else {
                (seq![m], j)
            }
        } else {
            (seq![], i)
        },
        None => (seq![], i),
    }
}

/// Further `+ combination` alternatives of a block header.
pub open spec fn p_more_combos(s: Seq<char>, i: int) -> (Seq<SpecTriggerCombinations>, int)
    decreases s.len() - i,
{
    let a = after_ws(s, i);
    if at_char(s, a, '+') {
        let b = after_ws(s, a + 1);
        match p_combo(s, b) {
            Some((c, j)) => if i < j <= s.len() {
                let (cs, e) = p_more_combos(s, j);
                (seq![c] + cs, e)
            } else {
                (seq![], i)
            },
            None => (seq![], i),
        }
    } else {
        (seq![], i)
    }
}

/// A block: trigger alternatives and a body.
pub open spec fn p_block(s: Seq<char>, i: int) -> Option<(SpecBlock, int)> {
    match p_combo(s, i) {
        Some((c, j)) => {
            let (cs, e) = p_more_combos(s, j);
            match p_body_block(s, e) {
                Some((body, k)) => Some(
                    (SpecBlock { triggers: seq![c] + cs, body: body }, k),
                ),
                None => None,
            }
        },
        None => None,
    }
}

/// Zero or more blocks, each followed by whitespace.
pub open spec fn p_blocks(s: Seq<char>, i: int) -> (Seq<SpecBlock>, int)
    decreases s.len() - i,
{
    match p_block(s, i) {
        Some((b, j)) => if i < j <= s.len() {
            let w = after_ws(s, j);
            if w <= s.len() {
                let (bs, e) = p_blocks(s, w);
                (seq![b] + bs, e)
            } else {
                (seq![b], j)
            }
        } else {
            (seq![], i)
        },
        None => (seq![], i),
    }
}

/// A whole comment-free script: settings, then macros, then blocks,
/// then the end of the text.
pub open spec fn p_script(s: Seq<char>) -> Option<SpecScript> {
    let i0 = after_ws(s, 0);
    let (gs, i1) = p_globals(s, i0);
    let (ms, i2) = p_macros(s, i1);
    let (bs, i3) = p_blocks(s, i2);
    if i3 == s.len() {
        Some(SpecScript { global_settings: gs, macros: ms, blocks: bs })
    } else {
        None
    }
}

/// Where parsing of a comment-free script stops: the first position
/// that neither a setting, a macro nor a block consumes.
pub open spec fn p_script_stop(s: Seq<char>) -> int {
    let i0 = after_ws(s, 0);
    let (gs, i1) = p_globals(s, i0);
    let (ms, i2) = p_macros(s, i1);
    let (bs, i3) = p_blocks(s, i2);
    i3
}

/// What `parse_script` accepts and returns: comments are erased, then
/// the comment-free text must parse as a script.
pub open spec fn spec_parse_script(s: Seq<char>) -> Option<SpecScript> {
    p_script(spec_strip_comments(s))
}

/// Comments are invisible: parsing a script and parsing the same
/// script with its comments stripped give the same outcome, because
/// stripping is idempotent.
pub proof fn lemma_comments_invisible(s: Seq<char>)
    ensures
        spec_parse_script(spec_strip_comments(s)) == spec_parse_script(s),
{
    lemma_strip_idempotent(s, StripMode::Code);
}


// ------------------------------------------------------------------
// The executable parser
//
// Each `e_` function returns exactly what its mathematical
// counterpart returns; the contracts say so, and the bodies follow
// the same structure step for step.
// ------------------------------------------------------------------

fn is_space_exec(c: char) -> (b: bool)
    ensures
        b == is_space_char(c),
{
    c == ' ' || c == '\t' || c == '\r' || c == '\n'
}

fn is_ident_exec(c: char) -> (b: bool)
    ensures
        b == is_ident_char(c),
{
    ('0' <= c && c <= '9') || ('a' <= c && c <= 'z') || ('A' <= c && c <= 'Z') || c == '_'
}

fn is_alnum_exec(c: char) -> (b: bool)
    ensures
        b == is_alnum_char(c),
{
    ('0' <= c && c <= '9') || ('a' <= c && c <= 'z') || ('A' <= c && c <= 'Z')
}

fn is_strbody_exec(c: char) -> (b: bool)
    ensures
        b == is_strbody_char(c),
{
    c != '"' && c != '\\'
}

fn is_dec_exec(c: char) -> (b: bool)
    ensures
        b == is_dec_digit_char(c),
{
    '0' <= c && c <= '9'
}

fn is_hexdig_exec(c: char) -> (b: bool)
    ensures
        b == is_hex_digit_char(c),
{
    ('0' <= c && c <= '9') || ('a' <= c && c <= 'f') || ('A' <= c && c <= 'F')
}

/// Position after the whitespace run at `i`.
fn e_ws(s: &str, i: usize) -> (j: usize)
    requires
        i <= s@.len(),
    ensures
        j as int == after_ws(s@, i as int),
        i <= j <= s@.len(),
{
    let n = s.unicode_len();
    let mut j = i;
    while j < n && is_space_exec(s.get_char(j))
        invariant
            i <= j <= n == s@.len(),
            ws_len(s@, i as int) == (j - i) + ws_len(s@, j as int),
        decreases n - j,
    {
        j = j + 1;
    }
    j
}

fn e_ident_end(s: &str, i: usize) -> (j: usize)
    requires
        i <= s@.len(),
    ensures
        j as int == i + ident_len(s@, i as int),
        i <= j <= s@.len(),
{
    let n = s.unicode_len();
    let mut j = i;
    while j < n && is_ident_exec(s.get_char(j))
        invariant
            i <= j <= n == s@.len(),
            ident_len(s@, i as int) == (j - i) + ident_len(s@, j as int),
        decreases n - j,
    {
        j = j + 1;
    }
    j
}

fn e_alnum_end(s: &str, i: usize) -> (j: usize)
    requires
        i <= s@.len(),
    ensures
        j as int == i + alnum_len(s@, i as int),
        i <= j <= s@.len(),
{
    let n = s.unicode_len();
    let mut j = i;
    while j < n && is_alnum_exec(s.get_char(j))
        invariant
            i <= j <= n == s@.len(),
            alnum_len(s@, i as int) == (j - i) + alnum_len(s@, j as int),
        decreases n - j,
    {
        j = j + 1;
    }
    j
}

fn e_strbody_end(s: &str, i: usize) -> (j: usize)
    requires
        i <= s@.len(),
    ensures
        j as int == i + strbody_len(s@, i as int),
        i <= j <= s@.len(),
{
    let n = s.unicode_len();
    let mut j = i;
    while j < n && is_strbody_exec(s.get_char(j))
        invariant
            i <= j <= n == s@.len(),
            strbody_len(s@, i as int) == (j - i) + strbody_len(s@, j as int),
        decreases n - j,
    {
        j = j + 1;
    }
    j
}

fn e_dec_end(s: &str, i: usize) -> (j: usize)
    requires
        i <= s@.len(),
    ensures
        j as int == i + dec_len(s@, i as int),
        i <= j <= s@.len(),
{
    let n = s.unicode_len();
    let mut j = i;
    while j < n && is_dec_exec(s.get_char(j))
        invariant
            i <= j <= n == s@.len(),
            dec_len(s@, i as int) == (j - i) + dec_len(s@, j as int),
        decreases n - j,
    {
        j = j + 1;
    }
    j
}

fn e_hexdig_end(s: &str, i: usize) -> (j: usize)
    requires
        i <= s@.len(),
    ensures
        j as int == i + hexdig_len(s@, i as int),
        i <= j <= s@.len(),
{
    let n = s.unicode_len();
    let mut j = i;
    while j < n && is_hexdig_exec(s.get_char(j))
        invariant
            i <= j <= n == s@.len(),
            hexdig_len(s@, i as int) == (j - i) + hexdig_len(s@, j as int),
        decreases n - j,
    {
        j = j + 1;
    }
    j
}

/// Whether the literal `lit` stands at position `i` of `s`.
fn e_lit(s: &str, i: usize, lit: &str) -> (r: bool)
    requires
        i <= s@.len(),
    ensures
        r == lit_match(s@, i as int, lit@),
        s@.len() <= usize::MAX,
{
    let n = s.unicode_len();
    let m = lit.unicode_len();
    if m > n - i {
        return false;
    }
    let mut k: usize = 0;
    while k < m
        invariant
            0 <= k <= m == lit@.len(),
            i + m <= n == s@.len(),
            forall|t: int| 0 <= t < k ==> s@[i + t] == lit@[t],
        decreases m - k,
    {
        if s.get_char(i + k) != lit.get_char(k) {
            proof {
                assert(s@.subrange(i as int, i + m as int)[k as int] == s@[i + k]);
            }
            return false;
        }
        k = k + 1;
    }
    proof {
        assert(s@.subrange(i as int, i + m as int) =~= lit@);
    }
    true
}

/// The text between two character positions, as an owned string.
fn e_substring(s: &str, from: usize, to: usize) -> (r: String)
    requires
        from <= to <= s@.len(),
    ensures
        r@ == s@.subrange(from as int, to as int),
{
    s.substring_char(from, to).to_owned()
}

/// Reads the decimal digits of `s` between `from` and `to` as a
/// millisecond count; a value beyond `u64` reads as zero.
fn e_wait_val(s: &str, from: usize, to: usize) -> (r: u64)
    requires
        from <= to <= s@.len(),
        forall|t: int| from <= t < to ==> is_dec_digit_char(#[trigger] s@[t]),
    ensures
        r == wait_val(s@.subrange(from as int, to as int)),
{
    let ghost digits = s@.subrange(from as int, to as int);
    let mut acc: u64 = 0;
    let mut k = from;
    while k < to
        invariant
            from <= k <= to <= s@.len(),
            digits == s@.subrange(from as int, to as int),
            forall|t: int| from <= t < to ==> is_dec_digit_char(#[trigger] s@[t]),
            acc as nat == dec_seq_val(digits.take(k - from)),
        decreases to - k,
    {
        let c = s.get_char(k);
        let d: u64 = ((c as u32) - ('0' as u32)) as u64;
        proof {
            assert(digits[k - from] == c);
            assert(digits.take(k - from + 1).drop_last() =~= digits.take(k - from));
            assert(digits.take(k - from + 1).last() == c);
        }
        let next = match acc.checked_mul(10) {
            Some(x) => x.checked_add(d),
            None => None,
        };
        match next {
            Some(x) => {
                acc = x;
            },
            None => {
                proof {
                    lemma_dec_seq_val_take_mono(digits, k - from + 1);
                }
                return 0;
            },
        }
        k = k + 1;
    }
    proof {
        assert(digits.take(to - from) =~= digits);
    }
    acc
}

/// Reads the decimal digits as a loop count; a value beyond `usize`
/// reads as one.
fn e_loop_val(s: &str, from: usize, to: usize) -> (r: usize)
    requires
        from <= to <= s@.len(),
        forall|t: int| from <= t < to ==> is_dec_digit_char(#[trigger] s@[t]),
    ensures
        r == loop_val(s@.subrange(from as int, to as int)),
{
    let ghost digits = s@.subrange(from as int, to as int);
    let mut acc: usize = 0;
    let mut k = from;
    while k < to
        invariant
            from <= k <= to <= s@.len(),
            digits == s@.subrange(from as int, to as int),
            forall|t: int| from <= t < to ==> is_dec_digit_char(#[trigger] s@[t]),
            acc as nat == dec_seq_val(digits.take(k - from)),
        decreases to - k,
    {
        let c = s.get_char(k);
        let d: usize = ((c as u32) - ('0' as u32)) as usize;
        proof {
            assert(digits[k - from] == c);
            assert(digits.take(k - from + 1).drop_last() =~= digits.take(k - from));
            assert(digits.take(k - from + 1).last() == c);
        }
        let next = match acc.checked_mul(10) {
            Some(x) => x.checked_add(d),
            None => None,
        };
        match next {
            Some(x) => {
                acc = x;
            },
            None => {
                proof {
                    lemma_dec_seq_val_take_mono(digits, k - from + 1);
                }
                return 1;
            },
        }
        k = k + 1;
    }
    proof {
        assert(digits.take(to - from) =~= digits);
    }
    acc
}

/// Reads the hexadecimal digits as a scan code; a value beyond 16
/// bits reads as zero.
fn e_hex16_val(s: &str, from: usize, to: usize) -> (r: u16)
    requires
        from <= to <= s@.len(),
        forall|t: int| from <= t < to ==> is_hex_digit_char(#[trigger] s@[t]),
    ensures
        r == hex_val16(s@.subrange(from as int, to as int)),
{
    let ghost digits = s@.subrange(from as int, to as int);
    let mut acc: u32 = 0;
    let mut k = from;
    while k < to
        invariant
            from <= k <= to <= s@.len(),
            digits == s@.subrange(from as int, to as int),
            forall|t: int| from <= t < to ==> is_hex_digit_char(#[trigger] s@[t]),
            acc as nat == hex_seq_val(digits.take(k - from)),
            acc <= 0xFFFF,
        decreases to - k,
    {
        let c = s.get_char(k);
        let d = hex_digit_val_of(c);
        proof {
            assert(digits[k - from] == c);
            assert(digits.take(k - from + 1).drop_last() =~= digits.take(k - from));
            assert(digits.take(k - from + 1).last() == c);
        }
        let next = acc * 16 + (d as u32);
        if next > 0xFFFF {
            proof {
                crate::keymap::lemma_hex_seq_val_take_mono(digits, k - from + 1);
            }
            return 0;
        }
        acc = next;
        k = k + 1;
    }
    proof {
        assert(digits.take(to - from) =~= digits);
    }
    acc as u16
}

fn hex_digit_val_of(c: char) -> (r: u8)
    requires
        is_hex_digit_char(c),
    ensures
        r as nat == crate::keymap::hex_digit_val(c),
        r < 16,
{
    if '0' <= c && c <= '9' {
        (c as u8) - ('0' as u8)
    } else if 'a' <= c && c <= 'f' {
        (c as u8) - ('a' as u8) + 10
    } else {
        (c as u8) - ('A' as u8) + 10
    }
}


/// All characters in a hexadecimal-digit run are hexadecimal digits.
proof fn lemma_hexdig_span(s: Seq<char>, i: int)
    ensures
        forall|t: int| i <= t < i + hexdig_len(s, i) ==> is_hex_digit_char(#[trigger] s[t]),
    decreases s.len() - i,
{
    if 0 <= i < s.len() && is_hex_digit_char(s[i]) {
        lemma_hexdig_span(s, i + 1);
    }
}

/// All characters in a decimal-digit run are decimal digits.
proof fn lemma_dec_span(s: Seq<char>, i: int)
    ensures
        forall|t: int| i <= t < i + dec_len(s, i) ==> is_dec_digit_char(#[trigger] s[t]),
    decreases s.len() - i,
{
    if 0 <= i < s.len() && is_dec_digit_char(s[i]) {
        lemma_dec_span(s, i + 1);
    }
}

fn e_string_lit(s: &str, i: usize) -> (r: Option<(String, usize)>)
    requires
        i <= s@.len(),
    ensures
        match r {
            Some(v) => p_string_lit(s@, i as int) == Some((v.0@, v.1 as int)) && i < v.1
                <= s@.len(),
            None => p_string_lit(s@, i as int) is None,
        },
{
    let n = s.unicode_len();
    if i < n && s.get_char(i) == '"' {
        let e = e_strbody_end(s, i + 1);
        if e < n && s.get_char(e) == '"' {
            let v = e_substring(s, i + 1, e);
            Some((v, e + 1))
        } else {
            None
        }
    } else {
        None
    }
}

fn e_ext_key(s: &str, i: usize) -> (r: Option<(TriggerKey, usize)>)
    requires
        i <= s@.len(),
    ensures
        match r {
            Some(v) => p_ext_key(s@, i as int) == Some((v.0.deep_view(), v.1 as int)) && i < v.1
                <= s@.len(),
            None => p_ext_key(s@, i as int) is None,
        },
{
    proof {
        reveal_strlit("#E0/0x");
    }
    if e_lit(s, i, "#E0/0x") {
        let hstart = i + 6;
        let hend = e_hexdig_end(s, hstart);
        if hend > hstart {
            proof {
                lemma_hexdig_span(s@, hstart as int);
            }
            let val = e_hex16_val(s, hstart, hend);
            Some((TriggerKey::ExtendedPhysical(val), hend))
        } else {
            None
        }
    } else {
        None
    }
}

fn e_phys_key(s: &str, i: usize) -> (r: Option<(TriggerKey, usize)>)
    requires
        i <= s@.len(),
    ensures
        match r {
            Some(v) => p_phys_key(s@, i as int) == Some((v.0.deep_view(), v.1 as int)) && i < v.1
                <= s@.len(),
            None => p_phys_key(s@, i as int) is None,
        },
{
    proof {
        reveal_strlit("#0x");
    }
    if e_lit(s, i, "#0x") {
        let hstart = i + 3;
        let hend = e_hexdig_end(s, hstart);
        if hend > hstart {
            proof {
                lemma_hexdig_span(s@, hstart as int);
            }
            let val = e_hex16_val(s, hstart, hend);
            Some((TriggerKey::Physical(val), hend))
        } else {
            None
        }
    } else {
        None
    }
}

fn e_virt_key(s: &str, i: usize) -> (r: Option<(TriggerKey, usize)>)
    requires
        i <= s@.len(),
    ensures
        match r {
            Some(v) => p_virt_key(s@, i as int) == Some((v.0.deep_view(), v.1 as int)) && i < v.1
                <= s@.len(),
            None => p_virt_key(s@, i as int) is None,
        },
{
    proof {
        reveal_strlit("Code_");
    }
    if e_lit(s, i, "Code_") {
        let aend = e_alnum_end(s, i + 5);
        if aend > i + 5 {
            let name = e_substring(s, i + 5, aend);
            return Some((TriggerKey::Virtual(name), aend));
        }
    }
    let aend = e_alnum_end(s, i);
    if aend > i {
        let name = e_substring(s, i, aend);
        Some((TriggerKey::Virtual(name), aend))
    } else {
        None
    }
}

fn e_trigger_key(s: &str, i: usize) -> (r: Option<(TriggerKey, usize)>)
    requires
        i <= s@.len(),
    ensures
        match r {
            Some(v) => p_trigger_key(s@, i as int) == Some((v.0.deep_view(), v.1 as int)) && i
                < v.1 <= s@.len(),
            None => p_trigger_key(s@, i as int) is None,
        },
{
    match e_ext_key(s, i) {
        Some(r) => Some(r),
        None => match e_phys_key(s, i) {
            Some(r) => Some(r),
            None => e_virt_key(s, i),
        },
    }
}

fn e_more_keys(s: &str, i: usize) -> (r: (Vec<TriggerKey>, usize))
    requires
        i <= s@.len(),
    ensures
        p_more_keys(s@, i as int) == (r.0.deep_view(), r.1 as int),
        i <= r.1 <= s@.len(),
    decreases s@.len() - i,
{
    let n = s.unicode_len();
    let a = e_ws(s, i);
    if a < n && s.get_char(a) == '+' {
        let b = e_ws(s, a + 1);
        match e_trigger_key(s, b) {
            Some((k, j)) => {
                let (ks, e) = e_more_keys(s, j);
                let ghost ks_dv = ks.deep_view();
                let ghost k_dv = k.deep_view();
                let mut out: Vec<TriggerKey> = Vec::new();
                let mut rest = ks;
                out.push(k);
                out.append(&mut rest);
                proof {
                    assert(out.deep_view() =~= seq![k_dv] + ks_dv);
                }
                (out, e)
            },
            None => {
                let out: Vec<TriggerKey> = Vec::new();
                proof {
                    assert(out.deep_view() =~= Seq::<SpecTriggerKey>::empty());
                    assert(Seq::<SpecTriggerKey>::empty() =~= p_more_keys(s@, i as int).0);
                }
                (out, i)
            },
        }
    } else {
        let out: Vec<TriggerKey> = Vec::new();
        proof {
            assert(out.deep_view() =~= Seq::<SpecTriggerKey>::empty());
            assert(Seq::<SpecTriggerKey>::empty() =~= p_more_keys(s@, i as int).0);
        }
        (out, i)
    }
}

fn e_combo(s: &str, i: usize) -> (r: Option<(TriggerCombinations, usize)>)
    requires
        i <= s@.len(),
    ensures
        match r {
            Some(v) => p_combo(s@, i as int) == Some((v.0.deep_view(), v.1 as int)) && i < v.1
                <= s@.len(),
            None => p_combo(s@, i as int) is None,
        },
{
    match e_trigger_key(s, i) {
        Some((k, j)) => {
            let (ks, e) = e_more_keys(s, j);
            let ghost ks_dv = ks.deep_view();
            let ghost k_dv = k.deep_view();
            let mut out: Vec<TriggerKey> = Vec::new();
            let mut rest = ks;
            out.push(k);
            out.append(&mut rest);
            proof {
                assert(out.deep_view() =~= seq![k_dv] + ks_dv);
            }
            Some((TriggerCombinations(out), if e > j { e } else { j }))
        },
        None => None,
    }
}

fn e_cond_args(s: &str, i: usize) -> (r: Option<(Vec<TriggerCombinations>, usize)>)
    requires
        i <= s@.len(),
    ensures
        match r {
            Some(v) => p_cond_args(s@, i as int) == Some((v.0.deep_view(), v.1 as int)) && i < v.1
                <= s@.len(),
            None => p_cond_args(s@, i as int) is None,
        },
{
    match e_combo(s, i) {
        Some((cb, j)) => {
            let ghost cb_dv = cb.deep_view();
            let mut out: Vec<TriggerCombinations> = Vec::new();
            out.push(cb);
            proof {
                assert(out.deep_view() =~= seq![cb_dv]);
            }
            Some((out, j))
        },
        None => None,
    }
}

fn e_cond_plain(s: &str, i: usize, kw: &str) -> (r: Option<(Vec<TriggerCombinations>, usize)>)
    requires
        i <= s@.len(),
    ensures
        match r {
            Some(v) => p_cond_plain(s@, i as int, kw@) == Some((v.0.deep_view(), v.1 as int)) && i
                < v.1 <= s@.len(),
            None => p_cond_plain(s@, i as int, kw@) is None,
        },
{
    let n = s.unicode_len();
    if !e_lit(s, i, kw) {
        return None;
    }
    let a = e_ws(s, i + kw.unicode_len());
    if !(a < n && s.get_char(a) == '(') {
        return None;
    }
    let b = e_ws(s, a + 1);
    match e_cond_args(s, b) {
        Some((cs, j)) => {
            let e = e_ws(s, j);
            if e < n && s.get_char(e) == ')' {
                Some((cs, e + 1))
            } else {
                None
            }
        },
        None => None,
    }
}

fn e_cond_timed(s: &str, i: usize, kw: &str) -> (r: Option<((Vec<TriggerCombinations>, u64), usize)>)
    requires
        i <= s@.len(),
    ensures
        match r {
            Some(v) => p_cond_timed(s@, i as int, kw@) == Some(
                (((v.0).0.deep_view(), (v.0).1), v.1 as int),
            ) && i < v.1 <= s@.len(),
            None => p_cond_timed(s@, i as int, kw@) is None,
        },
{
    let n = s.unicode_len();
    if !e_lit(s, i, kw) {
        return None;
    }
    let a = e_ws(s, i + kw.unicode_len());
    if !(a < n && s.get_char(a) == '(') {
        return None;
    }
    let b = e_ws(s, a + 1);
    match e_cond_args(s, b) {
        Some((cs, j)) => {
            let e = e_ws(s, j);
            if !(e < n && s.get_char(e) == ',') {
                return None;
            }
            let f = e_ws(s, e + 1);
            let g = e_dec_end(s, f);
            if g == f {
                return None;
            }
            proof {
                lemma_dec_span(s@, f as int);
            }
            let ms = e_wait_val(s, f, g);
            let h = e_ws(s, g);
            if h < n && s.get_char(h) == ')' {
                Some(((cs, ms), h + 1))
            } else {
                None
            }
        },
        None => None,
    }
}

fn e_condition(s: &str, i: usize) -> (r: Option<(Condition, usize)>)
    requires
        i <= s@.len(),
    ensures
        match r {
            Some(v) => p_condition(s@, i as int) == Some((v.0.deep_view(), v.1 as int)) && i < v.1
                <= s@.len(),
            None => p_condition(s@, i as int) is None,
        },
{
    match e_cond_timed(s, i, "wait_input_time") {
        Some(((cs, t), j)) => Some((Condition::WaitInputTime(cs, t), j)),
        None => match e_cond_plain(s, i, "wait_input") {
            Some((cs, j)) => Some((Condition::WaitInput(cs), j)),
            None => match e_cond_plain(s, i, "now_input") {
                Some((cs, j)) => Some((Condition::NowInput(cs), j)),
                None => match e_cond_timed(s, i, "wait_released_time") {
                    Some(((cs, t), j)) => Some((Condition::WaitReleasedTime(cs, t), j)),
                    None => match e_cond_plain(s, i, "wait_released") {
                        Some((cs, j)) => Some((Condition::WaitReleased(cs), j)),
                        None => None,
                    },
                },
            },
        },
    }
}

fn e_run_like(s: &str, i: usize, kw: &str) -> (r: Option<(String, usize)>)
    requires
        i <= s@.len(),
    ensures
        match r {
            Some(v) => p_run_like(s@, i as int, kw@) == Some((v.0@, v.1 as int)) && i < v.1
                <= s@.len(),
            None => p_run_like(s@, i as int, kw@) is None,
        },
{
    let n = s.unicode_len();
    if !e_lit(s, i, kw) {
        return None;
    }
    let a = e_ws(s, i + kw.unicode_len());
    if !(a < n && s.get_char(a) == ':') {
        return None;
    }
    let b = e_ws(s, a + 1);
    match e_string_lit(s, b) {
        Some((cmd, j)) => {
            let e = e_ws(s, j);
            if e < n && s.get_char(e) == ';' {
                Some((cmd, e + 1))
            } else {
                None
            }
        },
        None => None,
    }
}

fn e_fail_like(s: &str, i: usize, kw: &str) -> (r: Option<(String, usize)>)
    requires
        i <= s@.len(),
    ensures
        match r {
            Some(v) => p_fail_like(s@, i as int, kw@) == Some((v.0@, v.1 as int)) && i < v.1
                <= s@.len(),
            None => p_fail_like(s@, i as int, kw@) is None,
        },
{
    let n = s.unicode_len();
    if !e_lit(s, i, kw) {
        return None;
    }
    let a = e_ws(s, i + kw.unicode_len());
    if !(a < n && s.get_char(a) == ':') {
        return None;
    }
    let b = e_ws(s, a + 1);
    e_string_lit(s, b)
}

fn e_fail_stmt(s: &str, i: usize) -> (r: Option<(Statement, usize)>)
    requires
        i <= s@.len(),
    ensures
        match r {
            Some(v) => p_fail_stmt(s@, i as int) == Some((v.0.deep_view(), v.1 as int)) && i < v.1
                <= s@.len(),
            None => p_fail_stmt(s@, i as int) is None,
        },
{
    match e_fail_like(s, i, "FailRun") {
        Some((cmd, j)) => Some((Statement::Run(cmd), j)),
        None => match e_fail_like(s, i, "FailExecute") {
            Some((cmd, j)) => Some((Statement::Execute(cmd), j)),
            None => None,
        },
    }
}

fn e_try_like(s: &str, i: usize, kw: &str) -> (r: Option<((String, Statement), usize)>)
    requires
        i <= s@.len(),
    ensures
        match r {
            Some(v) => p_try_like(s@, i as int, kw@) == Some(
                (((v.0).0@, (v.0).1.deep_view()), v.1 as int),
            ) && i < v.1 <= s@.len(),
            None => p_try_like(s@, i as int, kw@) is None,
        },
{
    let n = s.unicode_len();
    if !e_lit(s, i, kw) {
        return None;
    }
    let a = e_ws(s, i + kw.unicode_len());
    if !(a < n && s.get_char(a) == ':') {
        return None;
    }
    let b = e_ws(s, a + 1);
    match e_string_lit(s, b) {
        Some((cmd, j)) => {
            let e = e_ws(s, j);
            if !(e < n && s.get_char(e) == ':') {
                return None;
            }
            let f = e_ws(s, e + 1);
            match e_fail_stmt(s, f) {
                Some((fb, g)) => {
                    let h = e_ws(s, g);
                    if h < n && s.get_char(h) == ';' {
                        Some(((cmd, fb), h + 1))
                    } else {
                        None
                    }
                },
                None => None,
            }
        },
        None => None,
    }
}

fn e_string_expr(s: &str, i: usize) -> (r: Option<(SendExpression, usize)>)
    requires
        i <= s@.len(),
    ensures
        match r {
            Some(v) => p_string_expr(s@, i as int) == Some((v.0.deep_view(), v.1 as int)) && i
                < v.1 <= s@.len(),
            None => p_string_expr(s@, i as int) is None,
        },
{
    proof {
        reveal_strlit("String");
    }
    let n = s.unicode_len();
    if !e_lit(s, i, "String") {
        return None;
    }
    let a = e_ws(s, i + 6);
    if !(a < n && s.get_char(a) == '(') {
        return None;
    }
    let b = e_ws(s, a + 1);
    match e_string_lit(s, b) {
        Some((text, j)) => {
            let e = e_ws(s, j);
            if e < n && s.get_char(e) == ')' {
                Some((SendExpression::String(text), e + 1))
            } else {
                None
            }
        },
        None => None,
    }
}

fn e_send_expr(s: &str, i: usize) -> (r: Option<(SendExpression, usize)>)
    requires
        i <= s@.len(),
    ensures
        match r {
            Some(v) => p_send_expr(s@, i as int) == Some((v.0.deep_view(), v.1 as int)) && i < v.1
                <= s@.len(),
            None => p_send_expr(s@, i as int) is None,
        },
{
    match e_string_expr(s, i) {
        Some(r) => Some(r),
        None => match e_trigger_key(s, i) {
            Some((k, j)) => Some((SendExpression::Key(k), j)),
            None => None,
        },
    }
}

fn e_more_send_exprs(s: &str, i: usize) -> (r: (Vec<SendExpression>, usize))
    requires
        i <= s@.len(),
    ensures
        p_more_send_exprs(s@, i as int) == (r.0.deep_view(), r.1 as int),
        i <= r.1 <= s@.len(),
    decreases s@.len() - i,
{
    let n = s.unicode_len();
    let a = e_ws(s, i);
    if a < n && s.get_char(a) == '+' {
        let b = e_ws(s, a + 1);
        match e_send_expr(s, b) {
            Some((x, j)) => {
                let (xs, e) = e_more_send_exprs(s, j);
                let ghost xs_dv = xs.deep_view();
                let ghost x_dv = x.deep_view();
                let mut out: Vec<SendExpression> = Vec::new();
                let mut rest = xs;
                out.push(x);
                out.append(&mut rest);
                proof {
                    assert(out.deep_view() =~= seq![x_dv] + xs_dv);
                }
                (out, e)
            },
            None => {
                let out: Vec<SendExpression> = Vec::new();
                proof {
                    assert(out.deep_view() =~= Seq::<SpecSendExpression>::empty());
                    assert(Seq::<SpecSendExpression>::empty() =~= p_more_send_exprs(
                        s@,
                        i as int,
                    ).0);
                }
                (out, i)
            },
        }
    } else {
        let out: Vec<SendExpression> = Vec::new();
        proof {
            assert(out.deep_view() =~= Seq::<SpecSendExpression>::empty());
            assert(Seq::<SpecSendExpression>::empty() =~= p_more_send_exprs(s@, i as int).0);
        }
        (out, i)
    }
}

fn e_send(s: &str, i: usize) -> (r: Option<(Vec<SendExpression>, usize)>)
    requires
        i <= s@.len(),
    ensures
        match r {
            Some(v) => p_send(s@, i as int) == Some((v.0.deep_view(), v.1 as int)) && i < v.1
                <= s@.len(),
            None => p_send(s@, i as int) is None,
        },
{
    proof {
        reveal_strlit("Send");
    }
    let n = s.unicode_len();
    if !e_lit(s, i, "Send") {
        return None;
    }
    let a = e_ws(s, i + 4);
    if !(a < n && s.get_char(a) == ':') {
        return None;
    }
    let b = e_ws(s, a + 1);
    match e_send_expr(s, b) {
        Some((x, j)) => {
            let (xs, e) = e_more_send_exprs(s, j);
            let f = e_ws(s, e);
            if f < n && s.get_char(f) == ';' {
                let ghost xs_dv = xs.deep_view();
                let ghost x_dv = x.deep_view();
                let mut out: Vec<SendExpression> = Vec::new();
                let mut rest = xs;
                out.push(x);
                out.append(&mut rest);
                proof {
                    assert(out.deep_view() =~= seq![x_dv] + xs_dv);
                }
                Some((out, f + 1))
            } else {
                None
            }
        },
        None => None,
    }
}

fn e_wait_stmt(s: &str, i: usize) -> (r: Option<(u64, usize)>)
    requires
        i <= s@.len(),
    ensures
        match r {
            Some(v) => p_wait(s@, i as int) == Some((v.0, v.1 as int)) && i < v.1 <= s@.len(),
            None => p_wait(s@, i as int) is None,
        },
{
    proof {
        reveal_strlit("wait");
    }
    let n = s.unicode_len();
    if !e_lit(s, i, "wait") {
        return None;
    }
    let a = e_ws(s, i + 4);
    if !(a < n && s.get_char(a) == '(') {
        return None;
    }
    let b = e_ws(s, a + 1);
    let g = e_dec_end(s, b);
    if g == b {
        return None;
    }
    proof {
        lemma_dec_span(s@, b as int);
    }
    let ms = e_wait_val(s, b, g);
    let e = e_ws(s, g);
    if !(e < n && s.get_char(e) == ')') {
        return None;
    }
    let f = e_ws(s, e + 1);
    if f < n && s.get_char(f) == ';' {
        Some((ms, f + 1))
    } else {
        None
    }
}

fn e_macro_call(s: &str, i: usize) -> (r: Option<(String, usize)>)
    requires
        i <= s@.len(),
    ensures
        match r {
            Some(v) => p_macro_call(s@, i as int) == Some((v.0@, v.1 as int)) && i < v.1
                <= s@.len(),
            None => p_macro_call(s@, i as int) is None,
        },
{
    let n = s.unicode_len();
    let j = e_ident_end(s, i);
    if j == i {
        return None;
    }
    if !(j < n && s.get_char(j) == '!') {
        return None;
    }
    let e = e_ws(s, j + 1);
    if e < n && s.get_char(e) == ';' {
        let name = e_substring(s, i, j);
        Some((name, e + 1))
    } else {
        None
    }
}

fn e_global_setting(s: &str, i: usize) -> (r: Option<(GlobalSetting, usize)>)
    requires
        i <= s@.len(),
    ensures
        match r {
            Some(v) => p_global_setting(s@, i as int) == Some((v.0.deep_view(), v.1 as int)) && i
                < v.1 <= s@.len(),
            None => p_global_setting(s@, i as int) is None,
        },
{
    proof {
        reveal_strlit("CLI");
    }
    let n = s.unicode_len();
    if !e_lit(s, i, "CLI") {
        return None;
    }
    let a = e_ws(s, i + 3);
    if !(a < n && s.get_char(a) == '=') {
        return None;
    }
    let b = e_ws(s, a + 1);
    match e_string_lit(s, b) {
        Some((v, j)) => {
            let e = e_ws(s, j);
            if e < n && s.get_char(e) == ';' {
                Some((GlobalSetting::Cli(v), e + 1))
            } else {
                None
            }
        },
        None => None,
    }
}


fn e_statements(s: &str, i: usize) -> (r: (Vec<Statement>, usize))
    requires
        i <= s@.len(),
    ensures
        p_statements(s@, i as int) == (r.0.deep_view(), r.1 as int),
        i <= r.1 <= s@.len(),
    decreases s@.len() - i, 2int,
{
    match parse_statement(s, i) {
        Some((st, j)) => {
            let w = e_ws(s, j);
            let (sts, e) = e_statements(s, w);
            let ghost sts_dv = sts.deep_view();
            let ghost st_dv = st.deep_view();
            let mut out: Vec<Statement> = Vec::new();
            let mut rest = sts;
            out.push(st);
            out.append(&mut rest);
            proof {
                assert(out.deep_view() =~= seq![st_dv] + sts_dv);
            }
            (out, e)
        },
        None => {
            let out: Vec<Statement> = Vec::new();
            proof {
                assert(out.deep_view() =~= Seq::<SpecStatement>::empty());
                assert(Seq::<SpecStatement>::empty() =~= p_statements(s@, i as int).0);
            }
            (out, i)
        },
    }
}

fn e_body_block(s: &str, i: usize) -> (r: Option<(Vec<Statement>, usize)>)
    requires
        i <= s@.len(),
    ensures
        match r {
            Some(v) => p_body_block(s@, i as int) == Some((v.0.deep_view(), v.1 as int)) && i
                < v.1 <= s@.len(),
            None => p_body_block(s@, i as int) is None,
        },
    decreases s@.len() - i, 0int,
{
    let n = s.unicode_len();
    let a = e_ws(s, i);
    if !(a < n && s.get_char(a) == '{') {
        return None;
    }
    let b = e_ws(s, a + 1);
    let (sts, j) = e_statements(s, b);
    let e = e_ws(s, j);
    if e < n && s.get_char(e) == '}' {
        Some((sts, e + 1))
    } else {
        None
    }
}

fn e_elifs(s: &str, i: usize) -> (r: (Vec<(Condition, Vec<Statement>)>, usize))
    requires
        i <= s@.len(),
    ensures
        p_elifs(s@, i as int).0 == elifs_dv(r.0@),
        p_elifs(s@, i as int).1 == r.1 as int,
        i <= r.1 <= s@.len(),
    decreases s@.len() - i, 1int,
{
    proof {
        reveal_strlit("elif");
    }
    let a = e_ws(s, i);
    if e_lit(s, a, "elif") {
        let b = e_ws(s, a + 4);
        if b > a + 4 {
            match e_condition(s, b) {
                Some((cond, j)) => {
                    match e_body_block(s, j) {
                        Some((body, k)) => {
                            let (arms, e) = e_elifs(s, k);
                            let ghost arms_dv = elifs_dv(arms@);
                            let ghost cond_dv = cond.deep_view();
                            let ghost body_dv = stmts_dv(body@);
                            let mut out: Vec<(Condition, Vec<Statement>)> = Vec::new();
                            let mut rest = arms;
                            out.push((cond, body));
                            out.append(&mut rest);
                            proof {
                                assert(body_dv =~= body.deep_view());
                                assert(elifs_dv(out@) =~= seq![(cond_dv, body_dv)] + arms_dv);
                            }
                            return (out, e);
                        },
                        None => {
                            let out: Vec<(Condition, Vec<Statement>)> = Vec::new();
                            proof {
                                assert(elifs_dv(out@) =~= p_elifs(s@, i as int).0);
                            }
                            return (out, i);
                        },
                    }
                },
                None => {
                    let out: Vec<(Condition, Vec<Statement>)> = Vec::new();
                    proof {
                        assert(elifs_dv(out@) =~= p_elifs(s@, i as int).0);
                    }
                    return (out, i);
                },
            }
        }
    }
    let out: Vec<(Condition, Vec<Statement>)> = Vec::new();
    proof {
        assert(elifs_dv(out@) =~= p_elifs(s@, i as int).0);
    }
    (out, i)
}

#[verifier::rlimit(60)]
fn e_if(s: &str, i: usize) -> (r: Option<(Statement, usize)>)
    requires
        i <= s@.len(),
    ensures
        match r {
            Some(v) => p_if(s@, i as int) == Some((v.0.deep_view(), v.1 as int)) && i < v.1
                <= s@.len(),
            None => p_if(s@, i as int) is None,
        },
    decreases s@.len() - i, 0int,
{
    proof {
        reveal_strlit("if");
        reveal_strlit("else");
    }
    if !e_lit(s, i, "if") {
        return None;
    }
    let a = e_ws(s, i + 2);
    if a == i + 2 {
        return None;
    }
    match e_condition(s, a) {
        Some((cond, j)) => {
            match e_body_block(s, j) {
                Some((tb, k)) => {
                    let (arms, m) = e_elifs(s, k);
                    let c2 = e_ws(s, m);
                    let ghost cond_dv = cond.deep_view();
                    let ghost tb_dv = stmts_dv(tb@);
                    let ghost arms_dv = elifs_dv(arms@);
                    proof {
                        assert(tb_dv =~= tb.deep_view());
                    }
                    if e_lit(s, c2, "else") {
                        match e_body_block(s, c2 + 4) {
                            Some((eb, e)) => {
                                let ghost eb_dv = stmts_dv(eb@);
                                proof {
                                    assert(eb_dv =~= eb.deep_view());
                                }
                                Some(
                                    (
                                        Statement::If {
                                            condition: cond,
                                            then_branch: tb,
                                            else_if_branches: arms,
                                            else_branch: Some(eb),
                                        },
                                        e,
                                    ),
                                )
                            },
                            None => Some(
                                (
                                    Statement::If {
                                        condition: cond,
                                        then_branch: tb,
                                        else_if_branches: arms,
                                        else_branch: None,
                                    },
                                    c2,
                                ),
                            ),
                        }
                    } else {
                        Some(
                            (
                                Statement::If {
                                    condition: cond,
                                    then_branch: tb,
                                    else_if_branches: arms,
                                    else_branch: None,
                                },
                                c2,
                            ),
                        )
                    }
                },
                None => None,
            }
        },
        None => None,
    }
}

fn e_loop_stmt(s: &str, i: usize) -> (r: Option<(Statement, usize)>)
    requires
        i <= s@.len(),
    ensures
        match r {
            Some(v) => p_loop(s@, i as int) == Some((v.0.deep_view(), v.1 as int)) && i < v.1
                <= s@.len(),
            None => p_loop(s@, i as int) is None,
        },
    decreases s@.len() - i, 0int,
{
    proof {
        reveal_strlit("loop");
    }
    if !e_lit(s, i, "loop") {
        return None;
    }
    let a = e_ws(s, i + 4);
    if a == i + 4 {
        return None;
    }
    let g = e_dec_end(s, a);
    if g == a {
        return None;
    }
    proof {
        lemma_dec_span(s@, a as int);
    }
    let count = e_loop_val(s, a, g);
    match e_body_block(s, g) {
        Some((body, k)) => {
            let ghost body_dv = stmts_dv(body@);
            proof {
                assert(body_dv =~= body.deep_view());
            }
            Some((Statement::Loop { count: count, body: body }, k))
        },
        None => None,
    }
}

pub fn parse_statement(s: &str, i: usize) -> (r: Option<(Statement, usize)>)
    requires
        i <= s@.len(),
    ensures
        match r {
            Some(v) => p_statement(s@, i as int) == Some((v.0.deep_view(), v.1 as int)) && i < v.1
                <= s@.len(),
            None => p_statement(s@, i as int) is None,
        },
    decreases s@.len() - i, 1int,
{
    match e_try_like(s, i, "TryRun") {
        Some(((cmd, fb), j)) => {
            let ghost fb_dv = fb.deep_view();
            let st = Statement::TryRun { command: cmd, failure: Some(Box::new(fb)) };
            proof {
                assert(st.deep_view() == SpecStatement::TryRun {
                    command: st->TryRun_command@,
                    failure: seq![fb_dv],
                });
            }
            return Some((st, j));
        },
        None => {},
    }
    match e_try_like(s, i, "TryExecute") {
        Some(((cmd, fb), j)) => {
            let ghost fb_dv = fb.deep_view();
            let st = Statement::TryExecute { command: cmd, failure: Some(Box::new(fb)) };
            proof {
                assert(st.deep_view() == SpecStatement::TryExecute {
                    command: st->TryExecute_command@,
                    failure: seq![fb_dv],
                });
            }
            return Some((st, j));
        },
        None => {},
    }
    match e_run_like(s, i, "Run") {
        Some((cmd, j)) => {
            return Some((Statement::Run(cmd), j));
        },
        None => {},
    }
    match e_run_like(s, i, "Execute") {
        Some((cmd, j)) => {
            return Some((Statement::Execute(cmd), j));
        },
        None => {},
    }
    match e_send(s, i) {
        Some((xs, j)) => {
            return Some((Statement::Send(xs), j));
        },
        None => {},
    }
    match e_wait_stmt(s, i) {
        Some((ms, j)) => {
            return Some((Statement::Wait(ms), j));
        },
        None => {},
    }
    match e_if(s, i) {
        Some(r) => {
            return Some(r);
        },
        None => {},
    }
    match e_loop_stmt(s, i) {
        Some(r) => {
            return Some(r);
        },
        None => {},
    }
    match e_macro_call(s, i) {
        Some((name, j)) => {
            return Some((Statement::MacroCall(name), j));
        },
        None => {},
    }
    None
}

pub fn parse_macro(s: &str, i: usize) -> (r: Option<(Macro, usize)>)
    requires
        i <= s@.len(),
    ensures
        match r {
            Some(v) => p_macro_def(s@, i as int) == Some((v.0.deep_view(), v.1 as int)) && i < v.1
                <= s@.len(),
            None => p_macro_def(s@, i as int) is None,
        },
{
    proof {
        reveal_strlit("macro");
    }
    if !e_lit(s, i, "macro") {
        return None;
    }
    let a = e_ws(s, i + 5);
    if a == i + 5 {
        return None;
    }
    let j = e_ident_end(s, a);
    if j == a {
        return None;
    }
    let name = e_substring(s, a, j);
    match e_body_block(s, j) {
        Some((body, k)) => {
            let ghost body_dv = stmts_dv(body@);
            proof {
                assert(body_dv =~= body.deep_view());
            }
            Some((Macro { name: name, body: body }, k))
        },
        None => None,
    }
}

fn e_globals(s: &str, i: usize) -> (r: (Vec<GlobalSetting>, usize))
    requires
        i <= s@.len(),
    ensures
        p_globals(s@, i as int) == (r.0.deep_view(), r.1 as int),
        i <= r.1 <= s@.len(),
    decreases s@.len() - i,
{
    match e_global_setting(s, i) {
        Some((g, j)) => {
            let w = e_ws(s, j);
            let (gs, e) = e_globals(s, w);
            let ghost gs_dv = gs.deep_view();
            let ghost g_dv = g.deep_view();
            let mut out: Vec<GlobalSetting> = Vec::new();
            let mut rest = gs;
            out.push(g);
            out.append(&mut rest);
            proof {
                assert(out.deep_view() =~= seq![g_dv] + gs_dv);
            }
            (out, e)
        },
        None => {
            let out: Vec<GlobalSetting> = Vec::new();
            proof {
                assert(out.deep_view() =~= Seq::<SpecGlobalSetting>::empty());
                assert(Seq::<SpecGlobalSetting>::empty() =~= p_globals(s@, i as int).0);
            }
            (out, i)
        },
    }
}

fn e_macros(s: &str, i: usize) -> (r: (Vec<Macro>, usize))
    requires
        i <= s@.len(),
    ensures
        p_macros(s@, i as int) == (r.0.deep_view(), r.1 as int),
        i <= r.1 <= s@.len(),
    decreases s@.len() - i,
{
    match parse_macro(s, i) {
        Some((m, j)) => {
            let w = e_ws(s, j);
            let (ms, e) = e_macros(s, w);
            let ghost ms_dv = ms.deep_view();
            let ghost m_dv = m.deep_view();
            let mut out: Vec<Macro> = Vec::new();
            let mut rest = ms;
            out.push(m);
            out.append(&mut rest);
            proof {
                assert(out.deep_view() =~= seq![m_dv] + ms_dv);
            }
            (out, e)
        },
        None => {
            let out: Vec<Macro> = Vec::new();
            proof {
                assert(out.deep_view() =~= Seq::<SpecMacro>::empty());
                assert(Seq::<SpecMacro>::empty() =~= p_macros(s@, i as int).0);
            }
            (out, i)
        },
    }
}

fn e_more_combos(s: &str, i: usize) -> (r: (Vec<TriggerCombinations>, usize))
    requires
        i <= s@.len(),
    ensures
        p_more_combos(s@, i as int) == (r.0.deep_view(), r.1 as int),
        i <= r.1 <= s@.len(),
    decreases s@.len() - i,
{
    let n = s.unicode_len();
    let a = e_ws(s, i);
    if a < n && s.get_char(a) == '+' {
        let b = e_ws(s, a + 1);
        match e_combo(s, b) {
            Some((cb, j)) => {
                let (cs, e) = e_more_combos(s, j);
                let ghost cs_dv = cs.deep_view();
                let ghost cb_dv = cb.deep_view();
                let mut out: Vec<TriggerCombinations> = Vec::new();
                let mut rest = cs;
                out.push(cb);
                out.append(&mut rest);
                proof {
                    assert(out.deep_view() =~= seq![cb_dv] + cs_dv);
                }
                (out, e)
            },
            None => {
                let out: Vec<TriggerCombinations> = Vec::new();
                proof {
                    assert(out.deep_view() =~= Seq::<SpecTriggerCombinations>::empty());
                    assert(Seq::<SpecTriggerCombinations>::empty() =~= p_more_combos(
                        s@,
                        i as int,
                    ).0);
                }
                (out, i)
            },
        }
    } else {
        let out: Vec<TriggerCombinations> = Vec::new();
        proof {
            assert(out.deep_view() =~= Seq::<SpecTriggerCombinations>::empty());
            assert(Seq::<SpecTriggerCombinations>::empty() =~= p_more_combos(s@, i as int).0);
        }
        (out, i)
    }
}

pub fn parse_block(s: &str, i: usize) -> (r: Option<(Block, usize)>)
    requires
        i <= s@.len(),
    ensures
        match r {
            Some(v) => p_block(s@, i as int) == Some((v.0.deep_view(), v.1 as int)) && i < v.1
                <= s@.len(),
            None => p_block(s@, i as int) is None,
        },
{
    match e_combo(s, i) {
        Some((cb, j)) => {
            let (cs, e) = e_more_combos(s, j);
            let ghost cs_dv = cs.deep_view();
            let ghost cb_dv = cb.deep_view();
            match e_body_block(s, e) {
                Some((body, k)) => {
                    let mut triggers: Vec<TriggerCombinations> = Vec::new();
                    let mut rest = cs;
                    triggers.push(cb);
                    triggers.append(&mut rest);
                    let ghost body_dv = stmts_dv(body@);
                    proof {
                        assert(triggers.deep_view() =~= seq![cb_dv] + cs_dv);
                        assert(body_dv =~= body.deep_view());
                    }
                    Some((Block { triggers: triggers, body: body }, k))
                },
                None => None,
            }
        },
        None => None,
    }
}

fn e_blocks(s: &str, i: usize) -> (r: (Vec<Block>, usize))
    requires
        i <= s@.len(),
    ensures
        p_blocks(s@, i as int) == (r.0.deep_view(), r.1 as int),
        i <= r.1 <= s@.len(),
    decreases s@.len() - i,
{
    match parse_block(s, i) {
        Some((b, j)) => {
            let w = e_ws(s, j);
            let (bs, e) = e_blocks(s, w);
            let ghost bs_dv = bs.deep_view();
            let ghost b_dv = b.deep_view();
            let mut out: Vec<Block> = Vec::new();
            let mut rest = bs;
            out.push(b);
            out.append(&mut rest);
            proof {
                assert(out.deep_view() =~= seq![b_dv] + bs_dv);
            }
            (out, e)
        },
        None => {
            let out: Vec<Block> = Vec::new();
            proof {
                assert(out.deep_view() =~= Seq::<SpecBlock>::empty());
                assert(Seq::<SpecBlock>::empty() =~= p_blocks(s@, i as int).0);
            }
            (out, i)
        },
    }
}

/// Why a script failed to parse: the character offset into the
/// comment-free text where parsing stopped, and a description.
#[derive(Debug, Clone, PartialEq, Eq)]
pub struct ParseError {
    pub offset: usize,
    pub message: String,
}

/// Parses a whole script: comments are erased, then the text must
/// consist of global settings, macro definitions and blocks, in that
/// order, and nothing else.  Returns exactly what the mathematical
/// parser describes; on failure nothing of the script is returned.
pub fn parse_script(s: &str) -> (r: Result<Script, ParseError>)
    ensures
        match r {
            Ok(sc) => spec_parse_script(s@) == Some(sc.deep_view()),
            Err(e) => spec_parse_script(s@) is None && e.offset as int == p_script_stop(
                spec_strip_comments(s@),
            ),
        },
{
    let stripped = strip_comments(s);
    let t = stripped.as_str();
    let i0 = e_ws(t, 0);
    let (gs, i1) = e_globals(t, i0);
    let (ms, i2) = e_macros(t, i1);
    let (bs, i3) = e_blocks(t, i2);
    if i3 == t.unicode_len() {
        Ok(Script { global_settings: gs, macros: ms, blocks: bs })
    } else {
        Err(
            ParseError {
                offset: i3,
                message: "the text from this offset of the comment-free script is not a setting, macro or block that reaches the end".to_owned(),
            },
        )
    }
}


// ------------------------------------------------------------------
// Structure of parsed scripts
// ------------------------------------------------------------------

/// A run of key-name characters lies inside the text.
proof fn lemma_alnum_bounds(s: Seq<char>, i: int)
    ensures
        alnum_len(s, i) > 0 ==> 0 <= i && i + alnum_len(s, i) <= s.len(),
    decreases s.len() - i,
{
    if 0 <= i < s.len() && is_alnum_char(s[i]) {
        lemma_alnum_bounds(s, i + 1);
    }
}

/// A run of hexadecimal digits lies inside the text.
proof fn lemma_hexdig_bounds(s: Seq<char>, i: int)
    ensures
        hexdig_len(s, i) > 0 ==> 0 <= i && i + hexdig_len(s, i) <= s.len(),
    decreases s.len() - i,
{
    if 0 <= i < s.len() && is_hex_digit_char(s[i]) {
        lemma_hexdig_bounds(s, i + 1);
    }
}

/// A trigger key always consumes at least one character and stays
/// inside the text.
proof fn lemma_key_pos(s: Seq<char>, i: int)
    ensures
        match p_trigger_key(s, i) {
            Some((k, j)) => i < j <= s.len(),
            None => true,
        },
{
    lemma_hexdig_bounds(s, i + 6);
    lemma_hexdig_bounds(s, i + 3);
    lemma_alnum_bounds(s, i + 5);
    lemma_alnum_bounds(s, i);
}

/// The position where a key list stops is a stopping position: no
/// further `+ key` link starts there.
proof fn lemma_more_keys_stop(s: Seq<char>, i: int)
    ensures
        p_more_keys(s, p_more_keys(s, i).1) == (Seq::<SpecTriggerKey>::empty(), p_more_keys(
            s,
            i,
        ).1),
    decreases s.len() - i,
{
    let a = after_ws(s, i);
    if at_char(s, a, '+') {
        let b = after_ws(s, a + 1);
        match p_trigger_key(s, b) {
            Some((k, j)) => {
                if i < j <= s.len() {
                    lemma_more_keys_stop(s, j);
                } else {
                    assert(p_more_keys(s, i) == (Seq::<SpecTriggerKey>::empty(), i));
                }
            },
            None => {
                assert(p_more_keys(s, i) == (Seq::<SpecTriggerKey>::empty(), i));
            },
        }
    } else {
        assert(p_more_keys(s, i) == (Seq::<SpecTriggerKey>::empty(), i));
    }
}

/// After one combination, no second `+ combination` alternative can
/// start: the combination itself would already have taken its keys.
/// Every parsed block therefore has exactly one combination.
proof fn lemma_block_single(s: Seq<char>, i: int)
    ensures
        match p_block(s, i) {
            Some((b, j)) => b.triggers.len() == 1,
            None => true,
        },
{
    match p_combo(s, i) {
        Some((cb, e)) => {
            match p_trigger_key(s, i) {
                Some((k0, j0)) => {
                    lemma_more_keys_stop(s, j0);
                    let stop = p_more_keys(s, j0).1;
                    assert(e == stop);
                    let a = after_ws(s, e);
                    if at_char(s, a, '+') {
                        let b2 = after_ws(s, a + 1);
                        match p_trigger_key(s, b2) {
                            Some((k, jk)) => {
                                lemma_key_pos(s, b2);
                                assert(e < jk <= s.len());
                                assert(p_more_keys(s, e).0.len() > 0);
                                assert(false);
                            },
                            None => {
                                assert(p_more_combos(s, e).0 =~= Seq::<
                                    SpecTriggerCombinations,
                                >::empty());
                            },
                        }
                    } else {
                        assert(p_more_combos(s, e).0 =~= Seq::<SpecTriggerCombinations>::empty());
                    }
                    if p_block(s, i) is Some {
                        assert(p_block(s, i)->Some_0.0.triggers == seq![cb] + p_more_combos(
                            s,
                            e,
                        ).0);
                        assert(p_block(s, i)->Some_0.0.triggers =~= seq![cb]);
                    }
                },
                None => {},
            }
        },
        None => {},
    }
}

/// Every block of a parsed script carries exactly one trigger
/// combination, so a script's block count equals its count of
/// top-level combinations.
pub proof fn lemma_blocks_single_combination(s: Seq<char>)
    ensures
        match spec_parse_script(s) {
            Some(sc) => forall|k: int|
                0 <= k < sc.blocks.len() ==> (#[trigger] sc.blocks[k]).triggers.len() == 1,
            None => true,
        },
{
    let t = spec_strip_comments(s);
    let i0 = after_ws(t, 0);
    let (gs, i1) = p_globals(t, i0);
    let (ms, i2) = p_macros(t, i1);
    lemma_blocks_single_from(t, i2);
}

/// All blocks collected from any starting position have exactly one
/// combination each.
proof fn lemma_blocks_single_from(s: Seq<char>, i: int)
    ensures
        forall|k: int|
            0 <= k < p_blocks(s, i).0.len() ==> (#[trigger] p_blocks(s, i).0[k]).triggers.len()
                == 1,
    decreases s.len() - i,
{
    match p_block(s, i) {
        Some((b, j)) => {
            lemma_block_single(s, i);
            if i < j <= s.len() {
                let w = after_ws(s, j);
                if w <= s.len() {
                    lemma_blocks_single_from(s, w);
                    assert(forall|k: int|
                        0 < k < p_blocks(s, i).0.len() ==> p_blocks(s, i).0[k] == p_blocks(
                            s,
                            w,
                        ).0[k - 1]);
                }
            }
        },
        None => {},
    }
}

} // verus!
