//! The round trip: the file text that [`crate::codec::save_config`] writes
//! parses back, through the functions of [`crate::parse`], to exactly the
//! list it was written from.

use vstd::prelude::*;
use crate::record::RecordV;
use crate::codec::{
    esc, esc_char, hex_digit, key_session, key_name, key_command, key_startup, lit_true,
    lit_false, field_prefix, ser_str_field, ser_record, ser_rest, ser_list,
};
use crate::parse::{
    is_ws, skip_ws, is_hex, hex_val, sp_string_body, sp_token, sp_string, sp_bool, sp_field_str,
    sp_field_bool, sp_record, sp_more, spec_parse_config, spec_load,
};

verus! {

pub open spec fn all_ws(s: Seq<char>) -> bool {
    forall|i: int| 0 <= i < s.len() ==> is_ws(#[trigger] s[i])
}

/// A character that the escaper leaves as itself.
pub open spec fn plain_char(c: char) -> bool {
    c != '"' && c != '\\' && c as u32 >= 32
}

pub open spec fn all_plain(s: Seq<char>) -> bool {
    forall|i: int| 0 <= i < s.len() ==> plain_char(#[trigger] s[i])
}

proof fn lemma_skip_ws_prefix(w: Seq<char>, rest: Seq<char>)
    requires
        all_ws(w),
    ensures
        skip_ws(w + rest) == skip_ws(rest),
    decreases w.len(),
{
    if w.len() == 0 {
        assert(w + rest =~= rest);
    } else {
        assert((w + rest)[0] == w[0]);
        assert(is_ws(w[0]));
        assert((w + rest).skip(1) =~= w.skip(1) + rest);
        assert(all_ws(w.skip(1)));
        lemma_skip_ws_prefix(w.skip(1), rest);
    }
}

proof fn lemma_skip_ws_none(s: Seq<char>)
    requires
        s.len() == 0 || !is_ws(s[0]),
    ensures
        skip_ws(s) == s,
{
}

proof fn lemma_token_rt(w: Seq<char>, c: char, rest: Seq<char>)
    requires
        all_ws(w),
        !is_ws(c),
    ensures
        sp_token(w + seq![c] + rest, c) == Some(rest),
{
    let head = seq![c] + rest;
    assert(w + seq![c] + rest =~= w + head);
    lemma_skip_ws_prefix(w, head);
    assert(head[0] == c);
    lemma_skip_ws_none(head);
    assert(head.skip(1) =~= rest);
}

proof fn lemma_esc_plain(s: Seq<char>)
    requires
        all_plain(s),
    ensures
        esc(s) == s,
    decreases s.len(),
{
    if s.len() > 0 {
        assert(plain_char(s[0]));
        assert(esc_char(s[0]) == seq![s[0]]);
        assert(all_plain(s.skip(1)));
        lemma_esc_plain(s.skip(1));
        assert(esc(s) =~= s);
    }
}

#[verifier::rlimit(50)]
proof fn lemma_body_rt(t: Seq<char>, rest: Seq<char>)
    ensures
        sp_string_body(esc(t) + seq!['"'] + rest) == Some((t, rest)),
    decreases t.len(),
{
    broadcast use vstd::utf8::char_u32_cast;

    let input = esc(t) + seq!['"'] + rest;
    if t.len() == 0 {
        assert(esc(t) == Seq::<char>::empty());
        assert(input =~= seq!['"'] + rest);
        assert(input[0] == '"');
        assert(input.skip(1) =~= rest);
        assert(Seq::<char>::empty() =~= t);
    } else {
        let c = t[0];
        assert(esc(t) == esc_char(c) + esc(t.skip(1)));
        lemma_body_rt(t.skip(1), rest);
        let tail = esc(t.skip(1)) + seq!['"'] + rest;
        assert(input =~= esc_char(c) + tail);
        assert(seq![c] + t.skip(1) =~= t);
        if c == '"' {
            assert(input[0] == '\\');
            assert(input[1] == '"');
            assert(input.skip(2) =~= tail);
        } else if c == '\\' {
            assert(input[0] == '\\');
            assert(input[1] == '\\');
            assert(input.skip(2) =~= tail);
        } else if c == '\n' {
            assert(input[0] == '\\');
            assert(input[1] == 'n');
            assert(input.skip(2) =~= tail);
        } else if c == '\t' {
            assert(input[0] == '\\');
            assert(input[1] == 't');
            assert(input.skip(2) =~= tail);
        } else if c == '\r' {
            assert(input[0] == '\\');
            assert(input[1] == 'r');
            assert(input.skip(2) =~= tail);
        } else if (c as u32) < 32 {
            let v = c as u32 as int;
            let h1 = hex_digit(v / 16);
            let h2 = hex_digit(v % 16);
            assert(input[0] == '\\');
            assert(input[1] == 'u');
            assert(input[2] == '0');
            assert(input[3] == '0');
            assert(input[4] == h1);
            assert(input[5] == h2);
            assert(input.len() >= 6);
            assert(0 <= v / 16 < 2);
            assert(0 <= v % 16 < 16);
            assert(is_hex(h1));
            assert(is_hex(h2));
            assert(hex_val(h1) == v / 16);
            assert(hex_val(h2) == v % 16);
            assert(hex_val(h1) * 16 + hex_val(h2) == v);
            let x = hex_val(input[4]) * 16 + hex_val(input[5]);
            assert(x == v);
            let d = (x as u8) as char;
            assert(d as u32 == c as u32);
            vstd::utf8::char_u32_cast(c, c as u32);
            vstd::utf8::char_u32_cast(d, d as u32);
            assert(d == c);
            assert(input.skip(6) =~= tail);
        } else {
            assert(input[0] == c);
            assert(input.skip(1) =~= tail);
        }
    }
}

proof fn lemma_string_rt(w: Seq<char>, t: Seq<char>, rest: Seq<char>)
    requires
        all_ws(w),
    ensures
        sp_string(w + seq!['"'] + esc(t) + seq!['"'] + rest) == Some((t, rest)),
{
    let body = esc(t) + seq!['"'] + rest;
    let input = w + seq!['"'] + esc(t) + seq!['"'] + rest;
    assert(input =~= w + seq!['"'] + body);
    lemma_token_rt(w, '"', body);
    lemma_body_rt(t, rest);
}

proof fn lemma_bool_rt(w: Seq<char>, b: bool, rest: Seq<char>)
    requires
        all_ws(w),
    ensures
        sp_bool(
            w + (if b {
                lit_true()
            } else {
                lit_false()
            }) + rest,
            ) == Some((b, rest)),
{
    let lit = if b {
        lit_true()
    } else {
        lit_false()
    };
    let head = lit + rest;
    let input = w + lit + rest;
    assert(input =~= w + head);
    lemma_skip_ws_prefix(w, head);
    assert(head[0] == lit[0]);
    lemma_skip_ws_none(head);
    if b {
        assert(head.len() >= 4);
        assert(head.take(4) =~= lit_true());
        assert(head.skip(4) =~= rest);
    } else {
        assert(head.len() >= 5);
        assert(head.take(4)[0] == 'f');
        if head.len() >= 4 && head.take(4) == lit_true() {
            assert(head.take(4)[0] == lit_true()[0]);
            assert(false);
        }
        assert(head.take(5) =~= lit_false());
        assert(head.skip(5) =~= rest);
    }
}

#[verifier::rlimit(50)]
proof fn lemma_field_str_rt(w: Seq<char>, key: Seq<char>, val: Seq<char>, rest: Seq<char>)
    requires
        all_ws(w),
        all_plain(key),
    ensures
        sp_field_str(w + ser_str_field(key, val) + rest, key) == Some((val, rest)),
{
    let input = w + ser_str_field(key, val) + rest;
    let w2 = w + seq!['\n', ' ', ' ', ' ', ' '];
    let rest2 = seq![':', ' ', '"'] + esc(val) + seq!['"'] + rest;
    assert(all_ws(w2));
    lemma_esc_plain(key);
    assert(input =~= w2 + seq!['"'] + esc(key) + seq!['"'] + rest2);
    lemma_string_rt(w2, key, rest2);
    let rest3 = seq![' ', '"'] + esc(val) + seq!['"'] + rest;
    assert(rest2 =~= Seq::<char>::empty() + seq![':'] + rest3);
    lemma_token_rt(Seq::<char>::empty(), ':', rest3);
    let w4 = seq![' '];
    assert(all_ws(w4));
    assert(rest3 =~= w4 + seq!['"'] + esc(val) + seq!['"'] + rest);
    lemma_string_rt(w4, val, rest);
}

#[verifier::rlimit(50)]
proof fn lemma_field_bool_rt(w: Seq<char>, key: Seq<char>, b: bool, rest: Seq<char>)
    requires
        all_ws(w),
        all_plain(key),
    ensures
        sp_field_bool(
            w + field_prefix(key) + (if b {
                lit_true()
            } else {
                lit_false()
            }) + rest,
            key,
        ) == Some((b, rest)),
{
    let lit = if b {
        lit_true()
    } else {
        lit_false()
    };
    let input = w + field_prefix(key) + lit + rest;
    let w2 = w + seq!['\n', ' ', ' ', ' ', ' '];
    let rest2 = seq![':', ' '] + lit + rest;
    assert(all_ws(w2));
    lemma_esc_plain(key);
    assert(input =~= w2 + seq!['"'] + esc(key) + seq!['"'] + rest2);
    lemma_string_rt(w2, key, rest2);
    let rest3 = seq![' '] + lit + rest;
    assert(rest2 =~= Seq::<char>::empty() + seq![':'] + rest3);
    lemma_token_rt(Seq::<char>::empty(), ':', rest3);
    let w4 = seq![' '];
    assert(all_ws(w4));
    assert(rest3 =~= w4 + lit + rest);
    lemma_bool_rt(w4, b, rest);
}

#[verifier::rlimit(100)]
proof fn lemma_record_rt(w: Seq<char>, r: RecordV, rest: Seq<char>)
    requires
        all_ws(w),
    ensures
        sp_record(w + ser_record(r) + rest) == Some((r, rest)),
{
    let input = w + ser_record(r) + rest;
    let lit = if r.startup {
        lit_true()
    } else {
        lit_false()
    };
    assert(all_plain(key_session()));
    assert(all_plain(key_name()));
    assert(all_plain(key_command()));
    assert(all_plain(key_startup()));
    let w1 = w + seq![' ', ' '];
    assert(all_ws(w1));
    let tail9 = rest;
    let tail8 = seq!['\n', ' ', ' ', '}'] + rest;
    let tail7 = field_prefix(key_startup()) + lit + tail8;
    let tail6 = ser_str_field(key_command(), r.command) + seq![','] + tail7;
    let tail5 = ser_str_field(key_name(), r.name) + seq![','] + tail6;
    let tail1 = ser_str_field(key_session(), r.session) + seq![','] + tail5;
    assert(input =~= w1 + seq!['{'] + tail1);
    lemma_token_rt(w1, '{', tail1);
    let e = Seq::<char>::empty();
    let tail2 = seq![','] + tail5;
    assert(tail1 =~= e + ser_str_field(key_session(), r.session) + tail2);
    lemma_field_str_rt(e, key_session(), r.session, tail2);
    assert(tail2 =~= e + seq![','] + tail5);
    lemma_token_rt(e, ',', tail5);
    let tail2b = seq![','] + tail6;
    assert(tail5 =~= e + ser_str_field(key_name(), r.name) + tail2b);
    lemma_field_str_rt(e, key_name(), r.name, tail2b);
    assert(tail2b =~= e + seq![','] + tail6);
    lemma_token_rt(e, ',', tail6);
    let tail2c = seq![','] + tail7;
    assert(tail6 =~= e + ser_str_field(key_command(), r.command) + tail2c);
    lemma_field_str_rt(e, key_command(), r.command, tail2c);
    assert(tail2c =~= e + seq![','] + tail7);
    lemma_token_rt(e, ',', tail7);
    assert(tail7 =~= e + field_prefix(key_startup()) + lit + tail8);
    lemma_field_bool_rt(e, key_startup(), r.startup, tail8);
    let w9 = seq!['\n', ' ', ' '];
    assert(all_ws(w9));
    assert(tail8 =~= w9 + seq!['}'] + tail9);
    lemma_token_rt(w9, '}', tail9);
    assert(RecordV {
        session: r.session,
        name: r.name,
        command: r.command,
        startup: r.startup,
    } =~= r);
}

#[verifier::rlimit(100)]
proof fn lemma_more_rt(l: Seq<RecordV>, rest: Seq<char>)
    ensures
        sp_more(ser_rest(l) + seq!['\n', ']'] + rest) == Some((l, rest)),
    decreases l.len(),
{
    let input = ser_rest(l) + seq!['\n', ']'] + rest;
    if l.len() == 0 {
        assert(ser_rest(l) == Seq::<char>::empty());
        let head = seq![']'] + rest;
        assert(input =~= seq!['\n'] + head);
        assert(all_ws(seq!['\n']));
        lemma_skip_ws_prefix(seq!['\n'], head);
        assert(head[0] == ']');
        lemma_skip_ws_none(head);
        assert(head.skip(1) =~= rest);
        assert(Seq::<RecordV>::empty() =~= l);
    } else {
        let rest4 = ser_rest(l.skip(1)) + seq!['\n', ']'] + rest;
        assert(ser_rest(l) == seq![',', '\n'] + ser_record(l[0]) + ser_rest(l.skip(1)));
        assert(input =~= seq![','] + (seq!['\n'] + ser_record(l[0]) + rest4));
        let t = input;
        assert(t[0] == ',');
        assert(!is_ws(','));
        lemma_skip_ws_none(t);
        assert(t.skip(1) =~= seq!['\n'] + ser_record(l[0]) + rest4);
        assert(all_ws(seq!['\n']));
        lemma_record_rt(seq!['\n'], l[0], rest4);
        lemma_more_rt(l.skip(1), rest);
        assert(seq![l[0]] + l.skip(1) =~= l);
    }
}

#[verifier::rlimit(100)]
proof fn lemma_parse_ser(l: Seq<RecordV>)
    ensures
        spec_parse_config(ser_list(l)) == Some(l),
{
    let input = ser_list(l);
    let e = Seq::<char>::empty();
    if l.len() == 0 {
        assert(input == seq!['[', ']']);
        assert(input =~= e + seq!['['] + seq![']']);
        lemma_token_rt(e, '[', seq![']']);
        let r0 = seq![']'];
        lemma_skip_ws_none(r0);
        assert(r0[0] == ']');
        assert(r0.skip(1) =~= e);
        lemma_skip_ws_none(e);
        assert(Seq::<RecordV>::empty() =~= l);
    } else {
        let rest5 = ser_rest(l.skip(1)) + seq!['\n', ']'] + e;
        let tail0 = seq!['\n'] + ser_record(l[0]) + rest5;
        assert(input =~= e + seq!['['] + tail0);
        lemma_token_rt(e, '[', tail0);
        let wr = seq!['\n', ' ', ' '];
        assert(all_ws(wr));
        let afterw = seq!['{'] + (ser_str_field(key_session(), l[0].session) + seq![',']
            + ser_str_field(key_name(), l[0].name) + seq![','] + ser_str_field(
            key_command(),
            l[0].command,
        ) + seq![','] + field_prefix(key_startup()) + (if l[0].startup {
            lit_true()
        } else {
            lit_false()
        }) + seq!['\n', ' ', ' ', '}'] + rest5);
        assert(tail0 =~= wr + afterw);
        lemma_skip_ws_prefix(wr, afterw);
        assert(afterw[0] == '{');
        lemma_skip_ws_none(afterw);
        assert(skip_ws(tail0)[0] == '{');
        lemma_record_rt(seq!['\n'], l[0], rest5);
        lemma_more_rt(l.skip(1), e);
        assert(seq![l[0]] + l.skip(1) =~= l);
        lemma_skip_ws_none(e);
    }
}

/// Round trip: the file text written for any config list parses back to
/// exactly that list — every field and the order of records preserved.
pub proof fn lemma_save_load_roundtrip(l: Seq<RecordV>)
    ensures
        spec_load(ser_list(l)) == l,
{
    lemma_parse_ser(l);
}

} // verus!
