//! Writing the config file: a pretty-printed JSON array of record objects,
//! two-space indented, with the four fields in fixed order. [`ser_list`] is
//! the exact text the file holds; the executable writer produces it
//! character for character.

use vstd::prelude::*;
use crate::record::{Command, RecordV};

verus! {

pub open spec fn hex_digit(n: int) -> char {
    if 0 <= n < 10 {
        ((48 + n) as u8) as char
    } else if 10 <= n < 16 {
        ((87 + n) as u8) as char
    } else {
        ' '
    }
}

/// How one character appears inside a JSON string literal: the quote, the
/// backslash and the common control characters get a two-character escape,
/// the remaining control characters a `\u00XX` escape, everything else
/// stands as itself.
pub open spec fn esc_char(c: char) -> Seq<char> {
    if c == '"' {
        seq!['\\', '"']
    } else if c == '\\' {
        seq!['\\', '\\']
    } else if c == '\n' {
        seq!['\\', 'n']
    } else if c == '\t' {
        seq!['\\', 't']
    } else if c == '\r' {
        seq!['\\', 'r']
    } else if (c as u32) < 32 {
        seq!['\\', 'u', '0', '0', hex_digit(c as u32 as int / 16), hex_digit(c as u32 as int % 16)]
    } else {
        seq![c]
    }
}

/// A whole text, escaped character by character.
pub open spec fn esc(s: Seq<char>) -> Seq<char>
    decreases s.len(),
{
    if s.len() == 0 {
        Seq::empty()
    } else {
        esc_char(s[0]) + esc(s.skip(1))
    }
}

pub proof fn lemma_esc_snoc(s: Seq<char>, c: char)
    ensures
        esc(s.push(c)) == esc(s) + esc_char(c),
    decreases s.len(),
{
    let p = s.push(c);
    if s.len() == 0 {
        assert(p[0] == c);
        assert(p.skip(1) =~= Seq::<char>::empty());
        assert(esc(Seq::<char>::empty()) == Seq::<char>::empty());
        assert(esc(p) == esc_char(c) + esc(p.skip(1)));
        assert(esc(p) =~= esc(s) + esc_char(c));
    } else {
        assert(p[0] == s[0]);
        assert(p.skip(1) =~= s.skip(1).push(c));
        lemma_esc_snoc(s.skip(1), c);
        assert(esc(p) == esc_char(s[0]) + esc(p.skip(1)));
        assert(esc(s) == esc_char(s[0]) + esc(s.skip(1)));
        assert(esc(p) =~= esc(s) + esc_char(c));
    }
}

pub open spec fn key_session() -> Seq<char> {
    seq!['s', 'e', 's', 's', 'i', 'o', 'n']
}

pub open spec fn key_name() -> Seq<char> {
    seq!['n', 'a', 'm', 'e']
}

pub open spec fn key_command() -> Seq<char> {
    seq!['c', 'o', 'm', 'm', 'a', 'n', 'd']
}

pub open spec fn key_startup() -> Seq<char> {
    seq!['s', 't', 'a', 'r', 't', 'u', 'p']
}

pub open spec fn lit_true() -> Seq<char> {
    seq!['t', 'r', 'u', 'e']
}

pub open spec fn lit_false() -> Seq<char> {
    seq!['f', 'a', 'l', 's', 'e']
}

/// Newline, four-space indent, the quoted key, a colon and a space.
pub open spec fn field_prefix(key: Seq<char>) -> Seq<char> {
    seq!['\n', ' ', ' ', ' ', ' ', '"'] + key + seq!['"', ':', ' ']
}

/// A string-valued field line, without the trailing comma.
pub open spec fn ser_str_field(key: Seq<char>, val: Seq<char>) -> Seq<char> {
    field_prefix(key) + seq!['"'] + esc(val) + seq!['"']
}

/// One record object, indented two spaces, fields in fixed order.
pub open spec fn ser_record(r: RecordV) -> Seq<char> {
    seq![' ', ' ', '{'] + ser_str_field(key_session(), r.session) + seq![','] + ser_str_field(
        key_name(),
        r.name,
    ) + seq![','] + ser_str_field(key_command(), r.command) + seq![','] + field_prefix(
        key_startup(),
    ) + (if r.startup {
        lit_true()
    } else {
        lit_false()
    }) + seq!['\n', ' ', ' ', '}']
}

/// Every record after the first, each preceded by a comma and a newline.
pub open spec fn ser_rest(l: Seq<RecordV>) -> Seq<char>
    decreases l.len(),
{
    if l.len() == 0 {
        Seq::empty()
    } else {
        seq![',', '\n'] + ser_record(l[0]) + ser_rest(l.skip(1))
    }
}

pub proof fn lemma_ser_rest_snoc(l: Seq<RecordV>, r: RecordV)
    ensures
        ser_rest(l.push(r)) == ser_rest(l) + seq![',', '\n'] + ser_record(r),
    decreases l.len(),
{
    let p = l.push(r);
    if l.len() == 0 {
        assert(p[0] == r);
        assert(p.skip(1) =~= Seq::<RecordV>::empty());
        assert(ser_rest(Seq::<RecordV>::empty()) == Seq::<char>::empty());
        assert(ser_rest(p) == seq![',', '\n'] + ser_record(r) + ser_rest(p.skip(1)));
        assert(ser_rest(p) =~= ser_rest(l) + seq![',', '\n'] + ser_record(r));
    } else {
        assert(p[0] == l[0]);
        assert(p.skip(1) =~= l.skip(1).push(r));
        lemma_ser_rest_snoc(l.skip(1), r);
        assert(ser_rest(p) == seq![',', '\n'] + ser_record(l[0]) + ser_rest(p.skip(1)));
        assert(ser_rest(l) == seq![',', '\n'] + ser_record(l[0]) + ser_rest(l.skip(1)));
        assert(ser_rest(p) =~= ser_rest(l) + seq![',', '\n'] + ser_record(r));
    }
}

/// The whole config file: `[]` for an empty list, otherwise the records on
/// their own lines between brackets.
pub open spec fn ser_list(l: Seq<RecordV>) -> Seq<char> {
    if l.len() == 0 {
        seq!['[', ']']
    } else {
        seq!['[', '\n'] + ser_record(l[0]) + ser_rest(l.skip(1)) + seq!['\n', ']']
    }
}

fn hex_char(n: u8) -> (c: char)
    requires
        n < 16,
    ensures
        c == hex_digit(n as int),
{
    if n < 10 {
        (48 + n) as char
    } else {
        (87 + n) as char
    }
}

fn push_escaped_char(out: &mut Vec<char>, c: char)
    ensures
        final(out)@ == old(out)@ + esc_char(c),
{
    if c == '"' {
        out.push('\\');
        out.push('"');
    } else if c == '\\' {
        out.push('\\');
        out.push('\\');
    } else if c == '\n' {
        out.push('\\');
        out.push('n');
    } else if c == '\t' {
        out.push('\\');
        out.push('t');
    } else if c == '\r' {
        out.push('\\');
        out.push('r');
    } else if (c as u32) < 32 {
        let u = c as u32;
        out.push('\\');
        out.push('u');
        out.push('0');
        out.push('0');
        out.push(hex_char((u / 16) as u8));
        out.push(hex_char((u % 16) as u8));
    } else {
        out.push(c);
    }
    proof {
        assert(out@ =~= old(out)@ + esc_char(c));
    }
}

fn push_escaped(out: &mut Vec<char>, s: &Vec<char>)
    ensures
        final(out)@ == old(out)@ + esc(s@),
{
    let mut i: usize = 0;
    proof {
        assert(esc(s@.take(0)) =~= Seq::<char>::empty());
        assert(out@ =~= old(out)@ + esc(s@.take(0)));
    }
    while i < s.len()
        invariant
            i <= s@.len(),
            out@ == old(out)@ + esc(s@.take(i as int)),
        decreases s@.len() - i,
    {
        push_escaped_char(out, s[i]);
        proof {
            assert(s@.take(i + 1) =~= s@.take(i as int).push(s@[i as int]));
            lemma_esc_snoc(s@.take(i as int), s@[i as int]);
            assert(out@ =~= old(out)@ + esc(s@.take(i + 1)));
        }
        i = i + 1;
    }
    proof {
        assert(s@.take(s@.len() as int) =~= s@);
    }
}

fn push_text(out: &mut Vec<char>, s: &Vec<char>)
    ensures
        final(out)@ == old(out)@ + s@,
{
    let mut i: usize = 0;
    while i < s.len()
        invariant
            i <= s@.len(),
            out@ == old(out)@ + s@.take(i as int),
        decreases s@.len() - i,
    {
        out.push(s[i]);
        proof {
            assert(out@ =~= old(out)@ + s@.take(i + 1));
        }
        i = i + 1;
    }
    proof {
        assert(s@.take(s@.len() as int) =~= s@);
    }
}

fn push_str_field(out: &mut Vec<char>, key: &Vec<char>, val: &Vec<char>)
    ensures
        final(out)@ == old(out)@ + ser_str_field(key@, val@),
{
    out.push('\n');
    out.push(' ');
    out.push(' ');
    out.push(' ');
    out.push(' ');
    out.push('"');
    push_text(out, key);
    out.push('"');
    out.push(':');
    out.push(' ');
    out.push('"');
    push_escaped(out, val);
    out.push('"');
    proof {
        assert(out@ =~= old(out)@ + ser_str_field(key@, val@));
    }
}

pub fn key_session_vec() -> (r: Vec<char>)
    ensures
        r@ == key_session(),
{
    let mut v: Vec<char> = Vec::new();
    v.push('s');
    v.push('e');
    v.push('s');
    v.push('s');
    v.push('i');
    v.push('o');
    v.push('n');
    proof {
        assert(v@ =~= key_session());
    }
    v
}

pub fn key_name_vec() -> (r: Vec<char>)
    ensures
        r@ == key_name(),
{
    let mut v: Vec<char> = Vec::new();
    v.push('n');
    v.push('a');
    v.push('m');
    v.push('e');
    proof {
        assert(v@ =~= key_name());
    }
    v
}

pub fn key_command_vec() -> (r: Vec<char>)
    ensures
        r@ == key_command(),
{
    let mut v: Vec<char> = Vec::new();
    v.push('c');
    v.push('o');
    v.push('m');
    v.push('m');
    v.push('a');
    v.push('n');
    v.push('d');
    proof {
        assert(v@ =~= key_command());
    }
    v
}

pub fn key_startup_vec() -> (r: Vec<char>)
    ensures
        r@ == key_startup(),
{
    let mut v: Vec<char> = Vec::new();
    v.push('s');
    v.push('t');
    v.push('a');
    v.push('r');
    v.push('t');
    v.push('u');
    v.push('p');
    proof {
        assert(v@ =~= key_startup());
    }
    v
}

#[verifier::rlimit(100)]
fn push_record(out: &mut Vec<char>, r: &Command)
    ensures
        final(out)@ == old(out)@ + ser_record(r@),
{
    out.push(' ');
    out.push(' ');
    out.push('{');
    proof {
        assert(out@ =~= old(out)@ + seq![' ', ' ', '{']);
    }
    let ghost o1 = out@;
    let ks = key_session_vec();
    push_str_field(out, &ks, &r.session);
    out.push(',');
    proof {
        assert(out@ =~= o1 + ser_str_field(key_session(), r@.session) + seq![',']);
    }
    let ghost o2 = out@;
    let kn = key_name_vec();
    push_str_field(out, &kn, &r.name);
    out.push(',');
    proof {
        assert(out@ =~= o2 + ser_str_field(key_name(), r@.name) + seq![',']);
    }
    let ghost o3 = out@;
    let kc = key_command_vec();
    push_str_field(out, &kc, &r.command);
    out.push(',');
    proof {
        assert(out@ =~= o3 + ser_str_field(key_command(), r@.command) + seq![',']);
    }
    let ghost o4 = out@;
    out.push('\n');
    out.push(' ');
    out.push(' ');
    out.push(' ');
    out.push(' ');
    out.push('"');
    let kp = key_startup_vec();
    push_text(out, &kp);
    out.push('"');
    out.push(':');
    out.push(' ');
    proof {
        assert(out@ =~= o4 + field_prefix(key_startup()));
    }
    let ghost o5 = out@;
    if r.startup {
        out.push('t');
        out.push('r');
        out.push('u');
        out.push('e');
        proof {
            assert(out@ =~= o5 + lit_true());
        }
    } else {
        out.push('f');
        out.push('a');
        out.push('l');
        out.push('s');
        out.push('e');
        proof {
            assert(out@ =~= o5 + lit_false());
        }
    }
    let ghost o6 = out@;
    out.push('\n');
    out.push(' ');
    out.push(' ');
    out.push('}');
    proof {
        assert(out@ =~= o6 + seq!['\n', ' ', ' ', '}']);
        assert(out@ =~= old(out)@ + ser_record(r@));
    }
}

/// The exact file text for a config list: [`ser_list`] of its model.
pub fn save_config(config: &Vec<Command>) -> (r: Vec<char>)
    ensures
        r@ == ser_list(config.deep_view()),
{
    let ghost dv = config.deep_view();
    let mut out: Vec<char> = Vec::new();
    if config.len() == 0 {
        out.push('[');
        out.push(']');
        proof {
            assert(out@ =~= ser_list(dv));
        }
        return out;
    }
    out.push('[');
    out.push('\n');
    push_record(&mut out, &config[0]);
    proof {
        assert(dv[0] == config@[0]@);
        assert(ser_rest(dv.subrange(1, 1)) =~= Seq::<char>::empty());
        assert(out@ =~= seq!['[', '\n'] + ser_record(dv[0]) + ser_rest(dv.subrange(1, 1)));
    }
    let mut i: usize = 1;
    while i < config.len()
        invariant
            1 <= i <= config@.len(),
            dv == config.deep_view(),
            dv.len() == config@.len(),
            out@ == seq!['[', '\n'] + ser_record(dv[0]) + ser_rest(dv.subrange(1, i as int)),
        decreases config@.len() - i,
    {
        out.push(',');
        out.push('\n');
        push_record(&mut out, &config[i]);
        proof {
            assert(dv[i as int] == config@[i as int]@);
            assert(dv.subrange(1, i + 1) =~= dv.subrange(1, i as int).push(dv[i as int]));
            lemma_ser_rest_snoc(dv.subrange(1, i as int), dv[i as int]);
            assert(out@ =~= seq!['[', '\n'] + ser_record(dv[0]) + ser_rest(
                dv.subrange(1, i + 1),
            ));
        }
        i = i + 1;
    }
    out.push('\n');
    out.push(']');
    proof {
        assert(dv.subrange(1, dv.len() as int) =~= dv.skip(1));
        assert(out@ =~= ser_list(dv));
    }
    out
}

} // verus!
