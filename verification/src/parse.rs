//! Reading the config file back: a whitespace-tolerant parser for the JSON
//! shape that [`crate::codec::ser_list`] writes — an array of objects whose
//! four fields come in fixed order. Any deviation makes the parse fail, and
//! a failed parse loads as the empty list.

use vstd::prelude::*;
use crate::record::{Command, RecordV, text_eq};
use crate::codec::{key_session, key_name, key_command, key_startup, lit_true, lit_false};

verus! {

pub open spec fn is_ws(c: char) -> bool {
    c == ' ' || c == '\n' || c == '\t' || c == '\r'
}

/// The suffix of `s` after its leading whitespace.
pub open spec fn skip_ws(s: Seq<char>) -> Seq<char>
    decreases s.len(),
{
    if s.len() > 0 && is_ws(s[0]) {
        skip_ws(s.skip(1))
    } else {
        s
    }
}

pub open spec fn is_hex(c: char) -> bool {
    (48 <= c as u32 && c as u32 <= 57) || (97 <= c as u32 && c as u32 <= 102)
}

pub open spec fn hex_val(c: char) -> int {
    if c as u32 <= 57 {
        c as u32 - 48
    } else {
        c as u32 - 87
    }
}

/// Prepend `c` to the text of a successful parse.
pub open spec fn cons_parsed(c: char, r: Option<(Seq<char>, Seq<char>)>) -> Option<
    (Seq<char>, Seq<char>),
> {
    match r {
        Some((t, rest)) => Some((seq![c] + t, rest)),
        None => None,
    }
}

/// Parse the inside of a string literal, the opening quote already consumed:
/// the unescaped content up to the closing quote, and the rest of the input.
pub open spec fn sp_string_body(s: Seq<char>) -> Option<(Seq<char>, Seq<char>)>
    decreases s.len(),
{
    if s.len() == 0 {
        None
    } else if s[0] == '"' {
        Some((Seq::empty(), s.skip(1)))
    } else if s[0] == '\\' {
        if s.len() < 2 {
            None
        } else {
            let e = s[1];
            if e == '"' {
                cons_parsed('"', sp_string_body(s.skip(2)))
            } else if e == '\\' {
                cons_parsed('\\', sp_string_body(s.skip(2)))
            } else if e == 'n' {
                cons_parsed('\n', sp_string_body(s.skip(2)))
            } else if e == 't' {
                cons_parsed('\t', sp_string_body(s.skip(2)))
            } else if e == 'r' {
                cons_parsed('\r', sp_string_body(s.skip(2)))
            } else if e == 'u' {
                if s.len() >= 6 && s[2] == '0' && s[3] == '0' && is_hex(s[4]) && is_hex(s[5]) {
                    cons_parsed(
                        (((hex_val(s[4]) * 16 + hex_val(s[5])) as u8) as char),
                        sp_string_body(s.skip(6)),
                    )
                } else {
                    None
                }
            } else {
                None
            }
        }
    } else {
        cons_parsed(s[0], sp_string_body(s.skip(1)))
    }
}

/// Skip whitespace, then consume exactly the character `c`.
pub open spec fn sp_token(s: Seq<char>, c: char) -> Option<Seq<char>> {
    let t = skip_ws(s);
    if t.len() > 0 && t[0] == c {
        Some(t.skip(1))
    } else {
        None
    }
}

/// Skip whitespace, then parse a quoted string literal.
pub open spec fn sp_string(s: Seq<char>) -> Option<(Seq<char>, Seq<char>)> {
    match sp_token(s, '"') {
        Some(r) => sp_string_body(r),
        None => None,
    }
}

/// Skip whitespace, then parse `true` or `false`.
pub open spec fn sp_bool(s: Seq<char>) -> Option<(bool, Seq<char>)> {
    let t = skip_ws(s);
    if t.len() >= 4 && t.take(4) == lit_true() {
        Some((true, t.skip(4)))
    } else if t.len() >= 5 && t.take(5) == lit_false() {
        Some((false, t.skip(5)))
    } else {
        None
    }
}

/// A string-valued field: the quoted key `key`, a colon, a quoted value.
pub open spec fn sp_field_str(s: Seq<char>, key: Seq<char>) -> Option<(Seq<char>, Seq<char>)> {
    match sp_string(s) {
        Some((k, r1)) => if k == key {
            match sp_token(r1, ':') {
                Some(r2) => sp_string(r2),
                None => None,
            }
        } else {
            None
        },
        None => None,
    }
}

/// A bool-valued field: the quoted key `key`, a colon, `true` or `false`.
pub open spec fn sp_field_bool(s: Seq<char>, key: Seq<char>) -> Option<(bool, Seq<char>)> {
    match sp_string(s) {
        Some((k, r1)) => if k == key {
            match sp_token(r1, ':') {
                Some(r2) => sp_bool(r2),
                None => None,
            }
        } else {
            None
        },
        None => None,
    }
}

/// One record object: `{`, the four fields in order separated by commas, `}`.
pub open spec fn sp_record(s: Seq<char>) -> Option<(RecordV, Seq<char>)> {
    match sp_token(s, '{') {
        Some(r0) => match sp_field_str(r0, key_session()) {
            Some((sess, r1)) => match sp_token(r1, ',') {
                Some(r1b) => match sp_field_str(r1b, key_name()) {
                    Some((nm, r2)) => match sp_token(r2, ',') {
                        Some(r2b) => match sp_field_str(r2b, key_command()) {
                            Some((cmd, r3)) => match sp_token(r3, ',') {
                                Some(r3b) => match sp_field_bool(r3b, key_startup()) {
                                    Some((st, r4)) => match sp_token(r4, '}') {
                                        Some(r5) => Some(
                                            (
                                                RecordV {
                                                    session: sess,
                                                    name: nm,
                                                    command: cmd,
                                                    startup: st,
                                                },
                                                r5,
                                            ),
                                        ),
                                        None => None,
                                    },
                                    None => None,
                                },
                                None => None,
                            },
                            None => None,
                        },
                        None => None,
                    },
                    None => None,
                },
                None => None,
            },
            None => None,
        },
        None => None,
    }
}

pub proof fn lemma_skip_ws_len(s: Seq<char>)
    ensures
        skip_ws(s).len() <= s.len(),
    decreases s.len(),
{
    if s.len() > 0 && is_ws(s[0]) {
        lemma_skip_ws_len(s.skip(1));
    }
}

pub proof fn lemma_body_shrinks(s: Seq<char>)
    ensures
        match sp_string_body(s) {
            Some((t, r)) => r.len() < s.len(),
            None => true,
        },
    decreases s.len(),
{
    if s.len() == 0 {
    } else if s[0] == '"' {
    } else if s[0] == '\\' {
        if s.len() >= 2 {
            lemma_body_shrinks(s.skip(2));
            if s.len() >= 6 {
                lemma_body_shrinks(s.skip(6));
            }
        }
    } else {
        lemma_body_shrinks(s.skip(1));
    }
}

pub proof fn lemma_token_shrinks(s: Seq<char>, c: char)
    ensures
        match sp_token(s, c) {
            Some(r) => r.len() < s.len(),
            None => true,
        },
{
    lemma_skip_ws_len(s);
}

pub proof fn lemma_string_shrinks(s: Seq<char>)
    ensures
        match sp_string(s) {
            Some((t, r)) => r.len() < s.len(),
            None => true,
        },
{
    lemma_token_shrinks(s, '"');
    match sp_token(s, '"') {
        Some(r0) => {
            lemma_body_shrinks(r0);
        },
        None => {},
    }
}

pub proof fn lemma_bool_shrinks(s: Seq<char>)
    ensures
        match sp_bool(s) {
            Some((b, r)) => r.len() < s.len(),
            None => true,
        },
{
    lemma_skip_ws_len(s);
}

pub proof fn lemma_field_str_shrinks(s: Seq<char>, key: Seq<char>)
    ensures
        match sp_field_str(s, key) {
            Some((v, r)) => r.len() < s.len(),
            None => true,
        },
{
    lemma_string_shrinks(s);
    match sp_string(s) {
        Some((k, r1)) => {
            lemma_token_shrinks(r1, ':');
            match sp_token(r1, ':') {
                Some(r2) => {
                    lemma_string_shrinks(r2);
                },
                None => {},
            }
        },
        None => {},
    }
}

pub proof fn lemma_field_bool_shrinks(s: Seq<char>, key: Seq<char>)
    ensures
        match sp_field_bool(s, key) {
            Some((v, r)) => r.len() < s.len(),
            None => true,
        },
{
    lemma_string_shrinks(s);
    match sp_string(s) {
        Some((k, r1)) => {
            lemma_token_shrinks(r1, ':');
            match sp_token(r1, ':') {
                Some(r2) => {
                    lemma_bool_shrinks(r2);
                },
                None => {},
            }
        },
        None => {},
    }
}

pub proof fn lemma_record_shrinks(s: Seq<char>)
    ensures
        match sp_record(s) {
            Some((rec, r)) => r.len() < s.len(),
            None => true,
        },
{
    lemma_token_shrinks(s, '{');
    match sp_token(s, '{') {
        Some(r0) => {
            lemma_field_str_shrinks(r0, key_session());
            match sp_field_str(r0, key_session()) {
                Some((sess, r1)) => {
                    lemma_token_shrinks(r1, ',');
                    match sp_token(r1, ',') {
                        Some(r1b) => {
                            lemma_field_str_shrinks(r1b, key_name());
                            match sp_field_str(r1b, key_name()) {
                                Some((nm, r2)) => {
                                    lemma_token_shrinks(r2, ',');
                                    match sp_token(r2, ',') {
                                        Some(r2b) => {
                                            lemma_field_str_shrinks(r2b, key_command());
                                            match sp_field_str(r2b, key_command()) {
                                                Some((cmd, r3)) => {
                                                    lemma_token_shrinks(r3, ',');
                                                    match sp_token(r3, ',') {
                                                        Some(r3b) => {
                                                            lemma_field_bool_shrinks(
                                                                r3b,
                                                                key_startup(),
                                                            );
                                                            match sp_field_bool(
                                                                r3b,
                                                                key_startup(),
                                                            ) {
                                                                Some((st, r4)) => {
                                                                    lemma_token_shrinks(r4, '}');
                                                                },
                                                                None => {},
                                                            }
                                                        },
                                                        None => {},
                                                    }
                                                },
                                                None => {},
                                            }
                                        },
                                        None => {},
                                    }
                                },
                                None => {},
                            }
                        },
                        None => {},
                    }
                },
                None => {},
            }
        },
        None => {},
    }
}

/// The records after the first one: `, <record>` repeated, then `]`.
pub open spec fn sp_more(s: Seq<char>) -> Option<(Seq<RecordV>, Seq<char>)>
    decreases s.len(),
    via sp_more_dec
{
    let t = skip_ws(s);
    if t.len() == 0 {
        None
    } else if t[0] == ']' {
        Some((Seq::empty(), t.skip(1)))
    } else if t[0] == ',' {
        match sp_record(t.skip(1)) {
            Some((r, rest)) => match sp_more(rest) {
                Some((l, rr)) => Some((seq![r] + l, rr)),
                None => None,
            },
            None => None,
        }
    } else {
        None
    }
}

#[via_fn]
proof fn sp_more_dec(s: Seq<char>) {
    lemma_skip_ws_len(s);
    let t = skip_ws(s);
    if t.len() > 0 && t[0] != ']' && t[0] == ',' {
        lemma_record_shrinks(t.skip(1));
    }
}

/// The whole array: `[`, either an immediate `]` or a first record followed
/// by [`sp_more`].
pub open spec fn sp_list(s: Seq<char>) -> Option<(Seq<RecordV>, Seq<char>)> {
    match sp_token(s, '[') {
        Some(r0) => {
            let t = skip_ws(r0);
            if t.len() > 0 && t[0] == ']' {
                Some((Seq::empty(), t.skip(1)))
            } else {
                match sp_record(r0) {
                    Some((r, rest)) => match sp_more(rest) {
                        Some((l, rr)) => Some((seq![r] + l, rr)),
                        None => None,
                    },
                    None => None,
                }
            }
        },
        None => None,
    }
}

/// A complete parse of the file text: the array, then only whitespace.
pub open spec fn spec_parse_config(s: Seq<char>) -> Option<Seq<RecordV>> {
    match sp_list(s) {
        Some((l, rest)) => if skip_ws(rest).len() == 0 {
            Some(l)
        } else {
            None
        },
        None => None,
    }
}

/// What loading the file yields: the parsed records, or the empty list when
/// the text does not parse.
pub open spec fn spec_load(s: Seq<char>) -> Seq<RecordV> {
    match spec_parse_config(s) {
        Some(l) => l,
        None => Seq::empty(),
    }
}

/// Prepend `a` to the text of a successful parse.
pub open spec fn cons_all(a: Seq<char>, r: Option<(Seq<char>, Seq<char>)>) -> Option<
    (Seq<char>, Seq<char>),
> {
    match r {
        Some((t, rest)) => Some((a + t, rest)),
        None => None,
    }
}

#[verifier::loop_isolation(false)]
fn skip_ws_exec(s: &Vec<char>, i: usize) -> (j: usize)
    requires
        i <= s@.len(),
    ensures
        i <= j <= s@.len(),
        skip_ws(s@.skip(i as int)) == s@.skip(j as int),
{
    let mut j: usize = i;
    while j < s.len() && (s[j] == ' ' || s[j] == '\n' || s[j] == '\t' || s[j] == '\r')
        invariant
            i <= j <= s@.len(),
            skip_ws(s@.skip(i as int)) == skip_ws(s@.skip(j as int)),
        decreases s@.len() - j,
    {
        proof {
            let t = s@.skip(j as int);
            assert(t[0] == s@[j as int]);
            assert(t.skip(1) =~= s@.skip(j + 1));
        }
        j = j + 1;
    }
    proof {
        let t = s@.skip(j as int);
        if j < s@.len() {
            assert(t[0] == s@[j as int]);
        }
        assert(skip_ws(t) == t);
    }
    j
}

fn p_token(s: &Vec<char>, i: usize, c: char) -> (r: Option<usize>)
    requires
        i <= s@.len(),
    ensures
        match r {
            Some(j) => i < j <= s@.len() && sp_token(s@.skip(i as int), c) == Some(
                s@.skip(j as int),
            ),
            None => sp_token(s@.skip(i as int), c) is None,
        },
{
    let j = skip_ws_exec(s, i);
    let ghost t = skip_ws(s@.skip(i as int));
    if j < s.len() && s[j] == c {
        proof {
            assert(t[0] == s@[j as int]);
            assert(t.skip(1) =~= s@.skip(j + 1));
        }
        Some(j + 1)
    } else {
        proof {
            if j < s@.len() {
                assert(t[0] == s@[j as int]);
            }
        }
        None
    }
}

fn is_hex_char(c: char) -> (r: bool)
    ensures
        r == is_hex(c),
{
    let u = c as u32;
    (u >= 48 && u <= 57) || (u >= 97 && u <= 102)
}

fn hex_val_char(c: char) -> (r: u8)
    requires
        is_hex(c),
    ensures
        r as int == hex_val(c),
        r < 16,
{
    let u = c as u32;
    if u <= 57 {
        (u - 48) as u8
    } else {
        (u - 87) as u8
    }
}

#[verifier::loop_isolation(false)]
fn p_string_body(s: &Vec<char>, i: usize) -> (r: Option<(Vec<char>, usize)>)
    requires
        i <= s@.len(),
    ensures
        match r {
            Some((t, j)) => i < j <= s@.len() && sp_string_body(s@.skip(i as int)) == Some(
                (t@, s@.skip(j as int)),
            ),
            None => sp_string_body(s@.skip(i as int)) is None,
        },
{
    let mut acc: Vec<char> = Vec::new();
    let mut cur: usize = i;
    proof {
        match sp_string_body(s@.skip(cur as int)) {
            Some((t, rest)) => {
                assert(acc@ + t =~= t);
            },
            None => {},
        }
    }
    loop
        invariant
            i <= cur <= s@.len(),
            sp_string_body(s@.skip(i as int)) == cons_all(
                acc@,
                sp_string_body(s@.skip(cur as int)),
            ),
        decreases s@.len() - cur,
    {
        let ghost pre = s@.skip(cur as int);
        if cur == s.len() {
            return None;
        }
        let c = s[cur];
        proof {
            assert(pre[0] == c);
        }
        if c == '"' {
            proof {
                assert(pre.skip(1) =~= s@.skip(cur + 1));
                assert(acc@ + Seq::<char>::empty() =~= acc@);
            }
            return Some((acc, cur + 1));
        }
        if c == '\\' {
            if cur + 1 == s.len() {
                return None;
            }
            let e = s[cur + 1];
            proof {
                assert(pre[1] == e);
            }
            if e == '"' || e == '\\' || e == 'n' || e == 't' || e == 'r' {
                let d: char = if e == '"' {
                    '"'
                } else if e == '\\' {
                    '\\'
                } else if e == 'n' {
                    '\n'
                } else if e == 't' {
                    '\t'
                } else {
                    '\r'
                };
                proof {
                    assert(pre.skip(2) =~= s@.skip(cur + 2));
                    assert(sp_string_body(pre) == cons_parsed(
                        d,
                        sp_string_body(s@.skip(cur + 2)),
                    ));
                    match sp_string_body(s@.skip(cur + 2)) {
                        Some((t, rest)) => {
                            assert(acc@.push(d) + t =~= acc@ + (seq![d] + t));
                        },
                        None => {},
                    }
                }
                acc.push(d);
                cur = cur + 2;
            } else if e == 'u' {
                if s.len() - cur < 6 {
                    return None;
                }
                let c2 = s[cur + 2];
                let c3 = s[cur + 3];
                let c4 = s[cur + 4];
                let c5 = s[cur + 5];
                proof {
                    assert(pre.len() >= 6);
                    assert(pre[2] == c2);
                    assert(pre[3] == c3);
                    assert(pre[4] == c4);
                    assert(pre[5] == c5);
                }
                if c2 == '0' && c3 == '0' && is_hex_char(c4) && is_hex_char(c5) {
                    let hi = hex_val_char(c4);
                    let lo = hex_val_char(c5);
                    let d = ((hi * 16 + lo) as u8) as char;
                    proof {
                        assert(pre.skip(6) =~= s@.skip(cur + 6));
                        assert(d == (((hex_val(pre[4]) * 16 + hex_val(pre[5])) as u8) as char));
                        assert(sp_string_body(pre) == cons_parsed(
                            d,
                            sp_string_body(s@.skip(cur + 6)),
                        ));
                        match sp_string_body(s@.skip(cur + 6)) {
                            Some((t, rest)) => {
                                assert(acc@.push(d) + t =~= acc@ + (seq![d] + t));
                            },
                            None => {},
                        }
                    }
                    acc.push(d);
                    cur = cur + 6;
                } else {
                    return None;
                }
            } else {
                return None;
            }
        } else {
            proof {
                assert(pre.skip(1) =~= s@.skip(cur + 1));
                assert(sp_string_body(pre) == cons_parsed(c, sp_string_body(s@.skip(cur + 1))));
                match sp_string_body(s@.skip(cur + 1)) {
                    Some((t, rest)) => {
                        assert(acc@.push(c) + t =~= acc@ + (seq![c] + t));
                    },
                    None => {},
                }
            }
            acc.push(c);
            cur = cur + 1;
        }
    }
}

fn p_string(s: &Vec<char>, i: usize) -> (r: Option<(Vec<char>, usize)>)
    requires
        i <= s@.len(),
    ensures
        match r {
            Some((t, j)) => i < j <= s@.len() && sp_string(s@.skip(i as int)) == Some(
                (t@, s@.skip(j as int)),
            ),
            None => sp_string(s@.skip(i as int)) is None,
        },
{
    match p_token(s, i, '"') {
        Some(j0) => p_string_body(s, j0),
        None => None,
    }
}

fn p_bool(s: &Vec<char>, i: usize) -> (r: Option<(bool, usize)>)
    requires
        i <= s@.len(),
    ensures
        match r {
            Some((b, j)) => i < j <= s@.len() && sp_bool(s@.skip(i as int)) == Some(
                (b, s@.skip(j as int)),
            ),
            None => sp_bool(s@.skip(i as int)) is None,
        },
{
    let j = skip_ws_exec(s, i);
    let ghost t = skip_ws(s@.skip(i as int));
    proof {
        assert(t.len() == s@.len() - j);
        assert(forall|k: int| 0 <= k < t.len() ==> t[k] == s@[j + k]);
    }
    if s.len() - j >= 4 && s[j] == 't' && s[j + 1] == 'r' && s[j + 2] == 'u' && s[j + 3] == 'e' {
        proof {
            assert(t.take(4) =~= lit_true());
            assert(t.skip(4) =~= s@.skip(j + 4));
        }
        Some((true, j + 4))
    } else if s.len() - j >= 5 && s[j] == 'f' && s[j + 1] == 'a' && s[j + 2] == 'l' && s[j + 3]
        == 's' && s[j + 4] == 'e' {
        proof {
            if t.len() >= 4 && t.take(4) == lit_true() {
                assert(t.take(4)[0] == lit_true()[0]);
                assert(false);
            }
            assert(t.take(5) =~= lit_false());
            assert(t.skip(5) =~= s@.skip(j + 5));
        }
        Some((false, j + 5))
    } else {
        proof {
            if t.len() >= 4 && t.take(4) == lit_true() {
                assert(t.take(4)[0] == lit_true()[0]);
                assert(t.take(4)[1] == lit_true()[1]);
                assert(t.take(4)[2] == lit_true()[2]);
                assert(t.take(4)[3] == lit_true()[3]);
                assert(false);
            }
            if t.len() >= 5 && t.take(5) == lit_false() {
                assert(t.take(5)[0] == lit_false()[0]);
                assert(t.take(5)[1] == lit_false()[1]);
                assert(t.take(5)[2] == lit_false()[2]);
                assert(t.take(5)[3] == lit_false()[3]);
                assert(t.take(5)[4] == lit_false()[4]);
                assert(false);
            }
        }
        None
    }
}

fn p_field_str(s: &Vec<char>, i: usize, key: &Vec<char>) -> (r: Option<(Vec<char>, usize)>)
    requires
        i <= s@.len(),
    ensures
        match r {
            Some((v, j)) => i < j <= s@.len() && sp_field_str(s@.skip(i as int), key@) == Some(
                (v@, s@.skip(j as int)),
            ),
            None => sp_field_str(s@.skip(i as int), key@) is None,
        },
{
    match p_string(s, i) {
        Some((k, j1)) => {
            if text_eq(&k, key) {
                match p_token(s, j1, ':') {
                    Some(j2) => p_string(s, j2),
                    None => None,
                }
            } else {
                None
            }
        },
        None => None,
    }
}

fn p_field_bool(s: &Vec<char>, i: usize, key: &Vec<char>) -> (r: Option<(bool, usize)>)
    requires
        i <= s@.len(),
    ensures
        match r {
            Some((v, j)) => i < j <= s@.len() && sp_field_bool(s@.skip(i as int), key@) == Some(
                (v, s@.skip(j as int)),
            ),
            None => sp_field_bool(s@.skip(i as int), key@) is None,
        },
{
    match p_string(s, i) {
        Some((k, j1)) => {
            if text_eq(&k, key) {
                match p_token(s, j1, ':') {
                    Some(j2) => p_bool(s, j2),
                    None => None,
                }
            } else {
                None
            }
        },
        None => None,
    }
}

fn p_record(s: &Vec<char>, i: usize) -> (r: Option<(Command, usize)>)
    requires
        i <= s@.len(),
    ensures
        match r {
            Some((rec, j)) => i < j <= s@.len() && sp_record(s@.skip(i as int)) == Some(
                (rec@, s@.skip(j as int)),
            ),
            None => sp_record(s@.skip(i as int)) is None,
        },
{
    let ks = crate::codec::key_session_vec();
    let kn = crate::codec::key_name_vec();
    let kc = crate::codec::key_command_vec();
    let kp = crate::codec::key_startup_vec();
    match p_token(s, i, '{') {
        None => None,
        Some(r0) => match p_field_str(s, r0, &ks) {
            None => None,
            Some((sess, r1)) => match p_token(s, r1, ',') {
                None => None,
                Some(r1b) => match p_field_str(s, r1b, &kn) {
                    None => None,
                    Some((nm, r2)) => match p_token(s, r2, ',') {
                        None => None,
                        Some(r2b) => match p_field_str(s, r2b, &kc) {
                            None => None,
                            Some((cmd, r3)) => match p_token(s, r3, ',') {
                                None => None,
                                Some(r3b) => match p_field_bool(s, r3b, &kp) {
                                    None => None,
                                    Some((st, r4)) => match p_token(s, r4, '}') {
                                        None => None,
                                        Some(r5) => {
                                            let rec = Command {
                                                session: sess,
                                                name: nm,
                                                command: cmd,
                                                startup: st,
                                            };
                                            proof {
                                                assert(rec@ =~= RecordV {
                                                    session: rec.session@,
                                                    name: rec.name@,
                                                    command: rec.command@,
                                                    startup: st,
                                                });
                                            }
                                            Some((rec, r5))
                                        },
                                    },
                                },
                            },
                        },
                    },
                },
            },
        },
    }
}

/// Parse a whole config file text, or report that it does not parse.
#[verifier::loop_isolation(false)]
pub fn parse_config(s: &Vec<char>) -> (r: Option<Vec<Command>>)
    ensures
        match r {
            Some(v) => spec_parse_config(s@) == Some(v.deep_view()),
            None => spec_parse_config(s@) is None,
        },
{
    proof {
        assert(s@.skip(0) =~= s@);
    }
    match p_token(s, 0, '[') {
        None => None,
        Some(j0) => {
            let jw = skip_ws_exec(s, j0);
            let ghost t = skip_ws(s@.skip(j0 as int));
            if jw < s.len() && s[jw] == ']' {
                proof {
                    assert(t[0] == s@[jw as int]);
                    assert(t.skip(1) =~= s@.skip(jw + 1));
                }
                let k = skip_ws_exec(s, jw + 1);
                if k == s.len() {
                    let empty_out: Vec<Command> = Vec::new();
                    proof {
                        assert(empty_out.deep_view() =~= Seq::<RecordV>::empty());
                    }
                    Some(empty_out)
                } else {
                    proof {
                        assert(skip_ws(s@.skip(jw + 1)).len() == s@.len() - k);
                    }
                    None
                }
            } else {
                proof {
                    if t.len() > 0 {
                        assert(t[0] == s@[jw as int]);
                    }
                }
                match p_record(s, j0) {
                    None => None,
                    Some((rec0, p0)) => {
                        let mut recs: Vec<Command> = Vec::new();
                        recs.push(rec0);
                        let mut cur: usize = p0;
                        proof {
                            assert(recs.deep_view() =~= seq![rec0@]);
                        }
                        loop
                            invariant
                                cur <= s@.len(),
                                match sp_more(s@.skip(cur as int)) {
                                    Some((l, rr)) => sp_list(s@) == Some(
                                        (recs.deep_view() + l, rr),
                                    ),
                                    None => sp_list(s@) is None,
                                },
                            decreases s@.len() - cur,
                        {
                            let jw2 = skip_ws_exec(s, cur);
                            let ghost t2 = skip_ws(s@.skip(cur as int));
                            if jw2 < s.len() && s[jw2] == ']' {
                                proof {
                                    assert(t2[0] == s@[jw2 as int]);
                                    assert(t2.skip(1) =~= s@.skip(jw2 + 1));
                                    assert(recs.deep_view() + Seq::<RecordV>::empty()
                                        =~= recs.deep_view());
                                }
                                let k = skip_ws_exec(s, jw2 + 1);
                                if k == s.len() {
                                    return Some(recs);
                                } else {
                                    proof {
                                        assert(skip_ws(s@.skip(jw2 + 1)).len() == s@.len() - k);
                                    }
                                    return None;
                                }
                            } else if jw2 < s.len() && s[jw2] == ',' {
                                proof {
                                    assert(t2[0] == s@[jw2 as int]);
                                    assert(t2.skip(1) =~= s@.skip(jw2 + 1));
                                }
                                match p_record(s, jw2 + 1) {
                                    None => {
                                        return None;
                                    },
                                    Some((rc, np)) => {
                                        let ghost prev = recs.deep_view();
                                        proof {
                                            match sp_more(s@.skip(np as int)) {
                                                Some((l, rr)) => {
                                                    assert(prev.push(rc@) + l =~= prev + (
                                                    seq![rc@] + l));
                                                },
                                                None => {},
                                            }
                                        }
                                        recs.push(rc);
                                        proof {
                                            assert(recs.deep_view() =~= prev.push(rc@));
                                        }
                                        cur = np;
                                    },
                                }
                            } else {
                                proof {
                                    if t2.len() > 0 {
                                        assert(t2[0] == s@[jw2 as int]);
                                    }
                                }
                                return None;
                            }
                        }
                    },
                }
            }
        },
    }
}

/// Load a config file text: the parsed records, or the empty list when the
/// text does not parse — a missing or corrupt file silently loads as empty.
pub fn load_config(text: &Vec<char>) -> (r: Vec<Command>)
    ensures
        r.deep_view() == spec_load(text@),
{
    match parse_config(text) {
        Some(v) => v,
        None => {
            let empty_out: Vec<Command> = Vec::new();
            proof {
                assert(empty_out.deep_view() =~= Seq::<RecordV>::empty());
            }
            empty_out
        },
    }
}

} // verus!
