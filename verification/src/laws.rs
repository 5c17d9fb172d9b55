//! Proofs that tie the serializer and the parser together: parsing a
//! serialized collection yields the collection back, and a status
//! spelling outside the three recognized ones makes a document
//! unparseable.

use vstd::prelude::*;
use crate::codec::{
    dec_digits, digit_char, digit_val, escape_char, escape_str, is_digit_char, is_ws_char,
    is_ws_seq, name_key, focus_key, qesc, ser_array_ws, ser_compact, ser_elems_ws, ser_object_raw,
    ser_object_ws, ser_pretty, spec_parse_elems, spec_parse_focus, spec_parse_member,
    spec_parse_num, spec_parse_object, spec_parse_projects, spec_parse_str_body,
    spec_parse_string, spec_skip_ws, status_key, status_of_str, status_str, PartialView,
    empty_partial, spec_parse_array,
};
use crate::project::{ProjectView, Status};

verus! {

/// Skipping whitespace runs over a whitespace prefix and stops at the
/// first character that is not whitespace.
pub proof fn lemma_skip_ws_concat(w: Seq<char>, t: Seq<char>)
    requires
        is_ws_seq(w),
        t.len() > 0 ==> !is_ws_char(t[0]),
    ensures
        spec_skip_ws(w + t) == t,
    decreases w.len(),
{
    if w.len() == 0 {
        assert(w + t =~= t);
    } else {
        assert((w + t)[0] == w[0]);
        assert((w + t).drop_first() =~= w.drop_first() + t);
        assert forall|k: int| 0 <= k < w.drop_first().len() implies is_ws_char(
            w.drop_first()[k],
        ) by {
            assert(w.drop_first()[k] == w[k + 1]);
        }
        lemma_skip_ws_concat(w.drop_first(), t);
    }
}

/// The body parser undoes the escaper: an escaped text, its closing
/// quote and anything after come back as the text and the rest.
pub proof fn lemma_parse_escaped_body(content: Seq<char>, acc: Seq<char>, t: Seq<char>)
    ensures
        spec_parse_str_body(escape_str(content) + seq!['"'] + t, acc) == Some(
            (acc + content, t),
        ),
    decreases content.len(),
{
    let s = escape_str(content) + seq!['"'] + t;
    if content.len() == 0 {
        assert(s =~= seq!['"'] + t);
        assert(s[0] == '"');
        assert(s.drop_first() =~= t);
        assert(acc + content =~= acc);
    } else {
        let c0 = content[0];
        let rest = content.drop_first();
        if c0 == '"' || c0 == '\\' {
            assert(s[0] == '\\');
            assert(s[1] == c0);
            assert(s.skip(2) =~= escape_str(rest) + seq!['"'] + t);
            lemma_parse_escaped_body(rest, acc.push(c0), t);
            assert(acc.push(c0) + rest =~= acc + content);
        } else {
            assert(s[0] == c0);
            assert(s.drop_first() =~= escape_str(rest) + seq!['"'] + t);
            lemma_parse_escaped_body(rest, acc.push(c0), t);
            assert(acc.push(c0) + rest =~= acc + content);
        }
    }
}

/// The string parser undoes quoting and escaping.
pub proof fn lemma_parse_qesc(content: Seq<char>, t: Seq<char>)
    ensures
        spec_parse_string(qesc(content) + t) == Some((content, t)),
{
    let s = qesc(content) + t;
    assert(s[0] == '"');
    assert(s.drop_first() =~= escape_str(content) + seq!['"'] + t);
    lemma_parse_escaped_body(content, Seq::empty(), t);
    assert(Seq::<char>::empty() + content =~= content);
}

/// Written digits always start with a digit character.
pub proof fn lemma_dec_digits_first(n: int)
    requires
        n >= 0,
    ensures
        dec_digits(n).len() > 0,
        is_digit_char(dec_digits(n)[0]),
        !is_ws_char(dec_digits(n)[0]),
    decreases n,
{
    if n >= 10 {
        lemma_dec_digits_first(n / 10);
    }
}

/// The number parser undoes the digit writer, for any value a focus can
/// hold, up to the first non-digit.
pub proof fn lemma_parse_digits(f: u8, t: Seq<char>)
    requires
        t.len() > 0 ==> !is_digit_char(t[0]),
    ensures
        spec_parse_focus(dec_digits(f as int) + t) == Some((f, t)),
{
    reveal_with_fuel(dec_digits, 4);
    reveal_with_fuel(spec_parse_num, 5);
    let fi = f as int;
    if f < 10 {
        let s = seq![digit_char(fi)] + t;
        assert(dec_digits(fi) + t =~= s);
        assert(s[0] == digit_char(fi));
        assert(s.drop_first() =~= t);
        assert(digit_val(digit_char(fi)) == fi);
    } else if f < 100 {
        let a = digit_char(fi / 10);
        let b = digit_char(fi % 10);
        assert(dec_digits(fi) =~= seq![a, b]);
        let s = seq![a, b] + t;
        assert(dec_digits(fi) + t =~= s);
        assert(s[0] == a);
        assert(s.drop_first() =~= seq![b] + t);
        assert((seq![b] + t)[0] == b);
        assert((seq![b] + t).drop_first() =~= t);
        assert(digit_val(a) == fi / 10);
        assert(digit_val(b) == fi % 10);
        assert((fi / 10) * 10 + fi % 10 == fi);
    } else {
        let a = digit_char(fi / 10 / 10);
        let b = digit_char(fi / 10 % 10);
        let c = digit_char(fi % 10);
        assert(dec_digits(fi) =~= seq![a, b, c]);
        let s = seq![a, b, c] + t;
        assert(dec_digits(fi) + t =~= s);
        assert(s[0] == a);
        assert(s.drop_first() =~= seq![b, c] + t);
        assert((seq![b, c] + t)[0] == b);
        assert((seq![b, c] + t).drop_first() =~= seq![c] + t);
        assert((seq![c] + t)[0] == c);
        assert((seq![c] + t).drop_first() =~= t);
        assert(digit_val(a) == fi / 10 / 10);
        assert(digit_val(b) == fi / 10 % 10);
        assert(digit_val(c) == fi % 10);
        assert((fi / 10 / 10) * 10 + fi / 10 % 10 == fi / 10);
        assert((fi / 10) * 10 + fi % 10 == fi);
    }
}

/// A serialized `name` member parses to the name, recorded in the
/// partial object.
pub proof fn lemma_parse_member_name(
    name: Seq<char>,
    mc: Seq<char>,
    t: Seq<char>,
    part: PartialView,
)
    requires
        is_ws_seq(mc),
        part.name is None,
    ensures
        spec_parse_member(qesc(name_key()) + seq![':'] + mc + qesc(name) + t, part) == Some(
            (PartialView { name: Some(name), status: part.status, focus: part.focus }, t),
        ),
{
    let s = qesc(name_key()) + seq![':'] + mc + qesc(name) + t;
    let t1 = seq![':'] + mc + (qesc(name) + t);
    assert(s =~= qesc(name_key()) + t1);
    lemma_parse_qesc(name_key(), t1);
    assert(t1[0] == ':');
    assert(t1.drop_first() =~= mc + (qesc(name) + t));
    assert((qesc(name) + t)[0] == '"');
    lemma_skip_ws_concat(mc, qesc(name) + t);
    lemma_parse_qesc(name, t);
}

/// A serialized `status` member parses to the status its spelling
/// denotes, and fails exactly when the spelling denotes none.
pub proof fn lemma_parse_member_status(
    sstr: Seq<char>,
    mc: Seq<char>,
    t: Seq<char>,
    part: PartialView,
)
    requires
        is_ws_seq(mc),
        part.status is None,
    ensures
        spec_parse_member(qesc(status_key()) + seq![':'] + mc + qesc(sstr) + t, part) == (
        match status_of_str(sstr) {
            Some(st) => Some(
                (PartialView { name: part.name, status: Some(st), focus: part.focus }, t),
            ),
            None => None,
        }),
{
    let s = qesc(status_key()) + seq![':'] + mc + qesc(sstr) + t;
    let t1 = seq![':'] + mc + (qesc(sstr) + t);
    assert(s =~= qesc(status_key()) + t1);
    lemma_parse_qesc(status_key(), t1);
    assert(status_key().len() != name_key().len());
    assert(t1[0] == ':');
    assert(t1.drop_first() =~= mc + (qesc(sstr) + t));
    assert((qesc(sstr) + t)[0] == '"');
    lemma_skip_ws_concat(mc, qesc(sstr) + t);
    lemma_parse_qesc(sstr, t);
}

/// A serialized `focus` member parses to the focus value.
pub proof fn lemma_parse_member_focus(f: u8, mc: Seq<char>, t: Seq<char>, part: PartialView)
    requires
        is_ws_seq(mc),
        part.focus is None,
        t.len() > 0,
        !is_digit_char(t[0]),
    ensures
        spec_parse_member(qesc(focus_key()) + seq![':'] + mc + dec_digits(f as int) + t, part)
            == Some(
            (PartialView { name: part.name, status: part.status, focus: Some(f) }, t),
        ),
{
    let s = qesc(focus_key()) + seq![':'] + mc + dec_digits(f as int) + t;
    let t1 = seq![':'] + mc + (dec_digits(f as int) + t);
    assert(s =~= qesc(focus_key()) + t1);
    lemma_parse_qesc(focus_key(), t1);
    assert(focus_key().len() != name_key().len());
    assert(focus_key().len() != status_key().len());
    assert(t1[0] == ':');
    assert(t1.drop_first() =~= mc + (dec_digits(f as int) + t));
    lemma_dec_digits_first(f as int);
    assert((dec_digits(f as int) + t)[0] == dec_digits(f as int)[0]);
    lemma_skip_ws_concat(mc, dec_digits(f as int) + t);
    lemma_parse_digits(f, t);
}

/// A serialized object parses to its record; with a status spelling
/// that denotes no status, it does not parse at all.
#[verifier::rlimit(100)]
#[verifier::spinoff_prover]
pub proof fn lemma_parse_object_raw(
    name: Seq<char>,
    sstr: Seq<char>,
    f: u8,
    mo: Seq<char>,
    mc: Seq<char>,
    me: Seq<char>,
    t: Seq<char>,
)
    requires
        is_ws_seq(mo),
        is_ws_seq(mc),
        is_ws_seq(me),
    ensures
        spec_parse_object(ser_object_raw(name, sstr, f, mo, mc, me) + t) == (
        match status_of_str(sstr) {
            Some(st) => Some((ProjectView { name: name, status: st, focus: f }, t)),
            None => None,
        }),
{
    let m1 = qesc(name_key()) + seq![':'] + mc + qesc(name);
    let m2 = qesc(status_key()) + seq![':'] + mc + qesc(sstr);
    let m3 = qesc(focus_key()) + seq![':'] + mc + dec_digits(f as int);
    let u3 = me + seq!['}'] + t;
    let u2 = seq![','] + mo + (m3 + u3);
    let u1 = seq![','] + mo + (m2 + u2);
    let s = ser_object_raw(name, sstr, f, mo, mc, me) + t;
    assert(s =~= seq!['{'] + mo + (m1 + u1));
    assert(s[0] == '{');
    assert(s.drop_first() =~= mo + (m1 + u1));
    assert((m1 + u1)[0] == '"');
    lemma_skip_ws_concat(mo, m1 + u1);
    assert(m1 + u1 =~= qesc(name_key()) + seq![':'] + mc + qesc(name) + u1);
    lemma_parse_member_name(name, mc, u1, empty_partial());
    let p1 = PartialView { name: Some(name), status: None, focus: None };
    assert(u1[0] == ',');
    assert(u1.drop_first() =~= mo + (m2 + u2));
    assert((m2 + u2)[0] == '"');
    lemma_skip_ws_concat(mo, m2 + u2);
    assert(m2 + u2 =~= qesc(status_key()) + seq![':'] + mc + qesc(sstr) + u2);
    lemma_parse_member_status(sstr, mc, u2, p1);
    if status_of_str(sstr) is Some {
        let st = status_of_str(sstr)->Some_0;
        let p2 = PartialView { name: Some(name), status: Some(st), focus: None };
        assert(u2[0] == ',');
        assert(u2.drop_first() =~= mo + (m3 + u3));
        assert((m3 + u3)[0] == '"');
        lemma_skip_ws_concat(mo, m3 + u3);
        assert(m3 + u3 =~= qesc(focus_key()) + seq![':'] + mc + dec_digits(f as int) + u3);
        assert(u3.len() > 0);
        assert(u3[0] == (seq!['}'] + t)[0] || (me.len() > 0 && u3[0] == me[0]));
        assert(!is_digit_char(u3[0]));
        lemma_parse_member_focus(f, mc, u3, p2);
        assert(u3 =~= me + (seq!['}'] + t));
        lemma_skip_ws_concat(me, seq!['}'] + t);
        assert((seq!['}'] + t)[0] == '}');
        assert((seq!['}'] + t).drop_first() =~= t);
    }
}

/// Each status spelling denotes exactly its status.
pub proof fn lemma_status_str_roundtrip(st: Status)
    ensures
        status_of_str(status_str(st)) == Some(st),
{
    assert(status_str(Status::Active).len() == 6);
    assert(status_str(Status::Inactive).len() == 8);
    assert(status_str(Status::Archived).len() == 8);
    assert(status_str(Status::Inactive)[0] == 'I');
    assert(status_str(Status::Archived)[0] == 'A');
}

/// A serialized record starts with an opening brace.
pub proof fn lemma_ser_elems_first(
    ps: Seq<ProjectView>,
    ao: Seq<char>,
    mo: Seq<char>,
    mc: Seq<char>,
    me: Seq<char>,
)
    requires
        ps.len() >= 1,
    ensures
        ser_elems_ws(ps, ao, mo, mc, me).len() > 0,
        ser_elems_ws(ps, ao, mo, mc, me)[0] == '{',
{
    if ps.len() == 1 {
        assert(ser_elems_ws(ps, ao, mo, mc, me)[0] == '{');
    } else {
        assert(ser_elems_ws(ps, ao, mo, mc, me)[0] == ser_object_ws(ps[0], mo, mc, me)[0]);
    }
}

/// Parsing serialized records, followed by the closing bracket, appends
/// them to what was read before and stops after the bracket.
#[verifier::rlimit(100)]
#[verifier::spinoff_prover]
pub proof fn lemma_parse_elems_ser(
    ps: Seq<ProjectView>,
    acc: Seq<ProjectView>,
    ao: Seq<char>,
    ae: Seq<char>,
    mo: Seq<char>,
    mc: Seq<char>,
    me: Seq<char>,
    u: Seq<char>,
)
    requires
        ps.len() >= 1,
        is_ws_seq(ao),
        is_ws_seq(ae),
        is_ws_seq(mo),
        is_ws_seq(mc),
        is_ws_seq(me),
    ensures
        spec_parse_elems(ser_elems_ws(ps, ao, mo, mc, me) + ae + seq![']'] + u, acc) == Some(
            (acc + ps, u),
        ),
    decreases ps.len(),
{
    let p0 = ps[0];
    lemma_status_str_roundtrip(p0.status);
    let obj = ser_object_raw(p0.name, status_str(p0.status), p0.focus, mo, mc, me);
    if ps.len() == 1 {
        let t = ae + (seq![']'] + u);
        let s = ser_elems_ws(ps, ao, mo, mc, me) + ae + seq![']'] + u;
        assert(s =~= obj + t);
        lemma_parse_object_raw(p0.name, status_str(p0.status), p0.focus, mo, mc, me, t);
        assert(ProjectView { name: p0.name, status: p0.status, focus: p0.focus } == p0);
        lemma_skip_ws_concat(ae, seq![']'] + u);
        assert((seq![']'] + u)[0] == ']');
        assert((seq![']'] + u).drop_first() =~= u);
        assert(acc.push(p0) =~= acc + ps);
    } else {
        let rest = ps.drop_first();
        let relems = ser_elems_ws(rest, ao, mo, mc, me);
        let t1 = seq![','] + ao + (relems + ae + seq![']'] + u);
        let s = ser_elems_ws(ps, ao, mo, mc, me) + ae + seq![']'] + u;
        assert(s =~= obj + t1);
        lemma_parse_object_raw(p0.name, status_str(p0.status), p0.focus, mo, mc, me, t1);
        assert(ProjectView { name: p0.name, status: p0.status, focus: p0.focus } == p0);
        assert(t1[0] == ',');
        assert(t1.drop_first() =~= ao + (relems + ae + seq![']'] + u));
        lemma_ser_elems_first(rest, ao, mo, mc, me);
        assert((relems + ae + seq![']'] + u)[0] == '{');
        lemma_skip_ws_concat(ao, relems + ae + seq![']'] + u);
        lemma_parse_elems_ser(rest, acc.push(p0), ao, ae, mo, mc, me, u);
        assert(acc.push(p0) + rest =~= acc + ps);
    }
}

/// Round-trip with arbitrary whitespace: a collection serialized with
/// any whitespace choices, and surrounded by any whitespace, parses
/// back to exactly that collection.
pub proof fn lemma_parse_ser_ws(
    ps: Seq<ProjectView>,
    lead: Seq<char>,
    ao: Seq<char>,
    ae: Seq<char>,
    mo: Seq<char>,
    mc: Seq<char>,
    me: Seq<char>,
    trail: Seq<char>,
)
    requires
        is_ws_seq(lead),
        is_ws_seq(ao),
        is_ws_seq(ae),
        is_ws_seq(mo),
        is_ws_seq(mc),
        is_ws_seq(me),
        is_ws_seq(trail),
    ensures
        spec_parse_projects(lead + ser_array_ws(ps, ao, ae, mo, mc, me) + trail) == Some(ps),
{
    let arr = ser_array_ws(ps, ao, ae, mo, mc, me);
    let s = lead + arr + trail;
    assert(arr[0] == '[');
    assert(s =~= lead + (arr + trail));
    assert((arr + trail)[0] == '[');
    lemma_skip_ws_concat(lead, arr + trail);
    assert(trail + Seq::<char>::empty() =~= trail);
    lemma_skip_ws_concat(trail, Seq::empty());
    if ps.len() == 0 {
        assert((arr + trail).drop_first() =~= seq![']'] + trail);
        assert((seq![']'] + trail)[0] == ']');
        assert((seq![']'] + trail).drop_first() =~= trail);
        assert(ps =~= Seq::<ProjectView>::empty());
    } else {
        let elems = ser_elems_ws(ps, ao, mo, mc, me);
        assert((arr + trail).drop_first() =~= ao + (elems + ae + seq![']'] + trail));
        lemma_ser_elems_first(ps, ao, mo, mc, me);
        assert((elems + ae + seq![']'] + trail)[0] == '{');
        lemma_skip_ws_concat(ao, elems + ae + seq![']'] + trail);
        lemma_parse_elems_ser(ps, Seq::empty(), ao, ae, mo, mc, me, trail);
        assert(Seq::<ProjectView>::empty() + ps =~= ps);
    }
}

/// Round-trip: a collection serialized in the compact or in the pretty
/// form parses back to exactly that collection.
pub proof fn lemma_round_trip(ps: Seq<ProjectView>)
    ensures
        spec_parse_projects(ser_compact(ps)) == Some(ps),
        spec_parse_projects(ser_pretty(ps)) == Some(ps),
{
    let e = Seq::<char>::empty();
    lemma_parse_ser_ws(ps, e, e, e, e, e, e, e);
    assert(e + ser_array_ws(ps, e, e, e, e, e) + e =~= ser_compact(ps));
    let ao = seq!['\n', ' ', ' '];
    let ae = seq!['\n'];
    let mo = seq!['\n', ' ', ' ', ' ', ' '];
    let mc = seq![' '];
    let me = seq!['\n', ' ', ' '];
    assert(is_ws_seq(ao));
    assert(is_ws_seq(ae));
    assert(is_ws_seq(mo));
    assert(is_ws_seq(mc));
    assert(is_ws_seq(me));
    lemma_parse_ser_ws(ps, e, ao, ae, mo, mc, me, e);
    assert(e + ser_array_ws(ps, ao, ae, mo, mc, me) + e =~= ser_pretty(ps));
}

/// A document whose status spelling is outside the three recognized
/// ones does not parse at all: the status is never defaulted.
pub proof fn lemma_unknown_status_rejected(name: Seq<char>, sstr: Seq<char>, f: u8)
    requires
        status_of_str(sstr) is None,
    ensures
        spec_parse_projects(
            seq!['['] + ser_object_raw(
                name,
                sstr,
                f,
                Seq::empty(),
                Seq::empty(),
                Seq::empty(),
            ) + seq![']'],
        ) is None,
{
    let e = Seq::<char>::empty();
    let obj = ser_object_raw(name, sstr, f, e, e, e);
    let s = seq!['['] + obj + seq![']'];
    assert(s[0] == '[');
    assert(spec_skip_ws(s) == s);
    assert(s.drop_first() =~= obj + seq![']']);
    assert(obj[0] == '{');
    assert((obj + seq![']'])[0] == '{');
    assert(spec_skip_ws(obj + seq![']']) == obj + seq![']']);
    lemma_parse_object_raw(name, sstr, f, e, e, e, seq![']']);
}

} // verus!
