//! The text format of the collection: a JSON array of objects, each with
//! the three fields `name` (string), `status` (one of three string
//! literals) and `focus` (integer).
//!
//! The serializer produces the compact form and the pretty form; the
//! parser accepts both, and any other whitespace or field order.

use vstd::prelude::*;
use vstd::string::StrSliceExecFns;
use crate::project::{Project, ProjectView, Status, StoreError};

verus! {

/// The wire spelling of a status.
pub open spec fn status_str(st: Status) -> Seq<char> {
    match st {
        Status::Active => seq!['A', 'c', 't', 'i', 'v', 'e'],
        Status::Inactive => seq!['I', 'n', 'a', 'c', 't', 'i', 'v', 'e'],
        Status::Archived => seq!['A', 'r', 'c', 'h', 'i', 'v', 'e', 'd'],
    }
}

/// The status a wire spelling denotes; anything outside the three
/// spellings denotes none.
pub open spec fn status_of_str(s: Seq<char>) -> Option<Status> {
    if s == status_str(Status::Active) {
        Some(Status::Active)
    } else if s == status_str(Status::Inactive) {
        Some(Status::Inactive)
    } else if s == status_str(Status::Archived) {
        Some(Status::Archived)
    } else {
        None
    }
}

/// The three field names.
pub open spec fn name_key() -> Seq<char> {
    seq!['n', 'a', 'm', 'e']
}

pub open spec fn status_key() -> Seq<char> {
    seq!['s', 't', 'a', 't', 'u', 's']
}

pub open spec fn focus_key() -> Seq<char> {
    seq!['f', 'o', 'c', 'u', 's']
}

/// The characters the parser treats as whitespace between tokens.
pub open spec fn is_ws_char(c: char) -> bool {
    c == ' ' || c == '\n' || c == '\t' || c == '\r'
}

pub open spec fn is_ws_seq(s: Seq<char>) -> bool {
    forall|i: int| 0 <= i < s.len() ==> is_ws_char(s[i])
}

pub open spec fn is_digit_char(c: char) -> bool {
    ||| c == '0'
    ||| c == '1'
    ||| c == '2'
    ||| c == '3'
    ||| c == '4'
    ||| c == '5'
    ||| c == '6'
    ||| c == '7'
    ||| c == '8'
    ||| c == '9'
}

pub open spec fn digit_val(c: char) -> int {
    if c == '0' {
        0
    } else if c == '1' {
        1
    } else if c == '2' {
        2
    } else if c == '3' {
        3
    } else if c == '4' {
        4
    } else if c == '5' {
        5
    } else if c == '6' {
        6
    } else if c == '7' {
        7
    } else if c == '8' {
        8
    } else {
        9
    }
}

pub open spec fn digit_char(d: int) -> char {
    if d == 0 {
        '0'
    } else if d == 1 {
        '1'
    } else if d == 2 {
        '2'
    } else if d == 3 {
        '3'
    } else if d == 4 {
        '4'
    } else if d == 5 {
        '5'
    } else if d == 6 {
        '6'
    } else if d == 7 {
        '7'
    } else if d == 8 {
        '8'
    } else {
        '9'
    }
}

/// The decimal digits of a non-negative number, most significant first.
pub open spec fn dec_digits(n: int) -> Seq<char>
    decreases n,
{
    if n < 10 {
        seq![digit_char(n)]
    } else {
        dec_digits(n / 10).push(digit_char(n % 10))
    }
}

/// How one character is written inside a quoted string: a quote or a
/// backslash gets a backslash before it, every other character stands
/// as it is.
pub open spec fn escape_char(c: char) -> Seq<char> {
    if c == '"' || c == '\\' {
        seq!['\\', c]
    } else {
        seq![c]
    }
}

pub open spec fn escape_str(s: Seq<char>) -> Seq<char>
    decreases s.len(),
{
    if s.len() == 0 {
        Seq::empty()
    } else {
        escape_char(s[0]) + escape_str(s.drop_first())
    }
}

/// A quoted, escaped string.
pub open spec fn qesc(s: Seq<char>) -> Seq<char> {
    seq!['"'] + escape_str(s) + seq!['"']
}

/// One serialized object, with an arbitrary status spelling and with
/// whitespace parameters: `mo` after `{` and after each comma, `mc`
/// after each colon, `me` before `}`.
pub open spec fn ser_object_raw(
    name: Seq<char>,
    sstr: Seq<char>,
    f: u8,
    mo: Seq<char>,
    mc: Seq<char>,
    me: Seq<char>,
) -> Seq<char> {
    seq!['{'] + mo + qesc(name_key()) + seq![':'] + mc + qesc(name) + seq![','] + mo + qesc(
        status_key(),
    ) + seq![':'] + mc + qesc(sstr) + seq![','] + mo + qesc(focus_key()) + seq![':'] + mc
        + dec_digits(f as int) + me + seq!['}']
}

/// One serialized record.
pub open spec fn ser_object_ws(p: ProjectView, mo: Seq<char>, mc: Seq<char>, me: Seq<char>) -> Seq<
    char,
> {
    ser_object_raw(p.name, status_str(p.status), p.focus, mo, mc, me)
}

/// The serialized records, comma-separated, `ao` after each comma.
pub open spec fn ser_elems_ws(
    ps: Seq<ProjectView>,
    ao: Seq<char>,
    mo: Seq<char>,
    mc: Seq<char>,
    me: Seq<char>,
) -> Seq<char>
    decreases ps.len(),
{
    if ps.len() == 0 {
        Seq::empty()
    } else if ps.len() == 1 {
        ser_object_ws(ps[0], mo, mc, me)
    } else {
        ser_object_ws(ps[0], mo, mc, me) + seq![','] + ao + ser_elems_ws(
            ps.drop_first(),
            ao,
            mo,
            mc,
            me,
        )
    }
}

/// The serialized collection: `ao` after `[` and after each comma, `ae`
/// before `]`; an empty collection is `[]`.
pub open spec fn ser_array_ws(
    ps: Seq<ProjectView>,
    ao: Seq<char>,
    ae: Seq<char>,
    mo: Seq<char>,
    mc: Seq<char>,
    me: Seq<char>,
) -> Seq<char> {
    if ps.len() == 0 {
        seq!['[', ']']
    } else {
        seq!['['] + ao + ser_elems_ws(ps, ao, mo, mc, me) + ae + seq![']']
    }
}

/// The compact form: no whitespace at all.
pub open spec fn ser_compact(ps: Seq<ProjectView>) -> Seq<char> {
    ser_array_ws(
        ps,
        Seq::empty(),
        Seq::empty(),
        Seq::empty(),
        Seq::empty(),
        Seq::empty(),
    )
}

/// The pretty form: one record per line, members indented by four
/// spaces, a space after each colon.
pub open spec fn ser_pretty(ps: Seq<ProjectView>) -> Seq<char> {
    ser_array_ws(
        ps,
        seq!['\n', ' ', ' '],
        seq!['\n'],
        seq!['\n', ' ', ' ', ' ', ' '],
        seq![' '],
        seq!['\n', ' ', ' '],
    )
}

/// Escaping a string one character longer appends the escape of that
/// character.
pub proof fn lemma_escape_push(s: Seq<char>, c: char)
    ensures
        escape_str(s.push(c)) == escape_str(s) + escape_char(c),
    decreases s.len(),
{
    if s.len() == 0 {
        reveal_with_fuel(escape_str, 3);
        assert(s.push(c).drop_first() =~= Seq::<char>::empty());
        assert(escape_str(s.push(c)) =~= escape_str(s) + escape_char(c));
    } else {
        lemma_escape_push(s.drop_first(), c);
        assert(s.push(c).drop_first() =~= s.drop_first().push(c));
        assert(escape_char(s.push(c)[0]) + (escape_str(s.drop_first()) + escape_char(c)) =~= (
        escape_char(s[0]) + escape_str(s.drop_first())) + escape_char(c));
    }
}

/// Builds a `Vec` of the characters of a string slice.
pub fn str_to_chars(s: &str) -> (v: Vec<char>)
    ensures
        v@ == s@,
{
    let n = s.unicode_len();
    let mut v: Vec<char> = Vec::new();
    let mut i: usize = 0;
    while i < n
        invariant
            n == s@.len(),
            0 <= i <= n,
            v@ == s@.take(i as int),
        decreases n - i,
    {
        v.push(s.get_char(i));
        proof {
            assert(v@ =~= s@.take((i + 1) as int));
        }
        i += 1;
    }
    proof {
        assert(s@.take(n as int) =~= s@);
    }
    v
}

/// Relies on `String` implementing `FromIterator<char>`: collecting
/// characters yields the string of exactly those characters, in order.
#[verifier::external_body]
fn chars_to_string(v: &Vec<char>) -> (s: String)
    ensures
        s@ == v@,
{
    v.iter().collect()
}

fn push_all(out: &mut Vec<char>, v: &Vec<char>)
    ensures
        final(out)@ == old(out)@ + v@,
{
    let n = v.len();
    let mut i: usize = 0;
    proof {
        assert(out@ =~= out@ + v@.take(0));
    }
    while i < n
        invariant
            n == v@.len(),
            0 <= i <= n,
            out@ == old(out)@ + v@.take(i as int),
        decreases n - i,
    {
        out.push(v[i]);
        proof {
            assert(out@ =~= old(out)@ + v@.take((i + 1) as int));
        }
        i += 1;
    }
    proof {
        assert(v@.take(n as int) =~= v@);
    }
}

fn push_quoted(out: &mut Vec<char>, content: &Vec<char>)
    ensures
        final(out)@ == old(out)@ + qesc(content@),
{
    out.push('"');
    let n = content.len();
    let mut i: usize = 0;
    proof {
        assert(out@ =~= old(out)@ + seq!['"'] + escape_str(content@.take(0)));
    }
    while i < n
        invariant
            n == content@.len(),
            0 <= i <= n,
            out@ == old(out)@ + seq!['"'] + escape_str(content@.take(i as int)),
        decreases n - i,
    {
        let c = content[i];
        if c == '"' || c == '\\' {
            out.push('\\');
            out.push(c);
        } else {
            out.push(c);
        }
        proof {
            lemma_escape_push(content@.take(i as int), content@[i as int]);
            assert(content@.take(i as int).push(content@[i as int]) =~= content@.take(
                (i + 1) as int,
            ));
            assert(out@ =~= old(out)@ + seq!['"'] + escape_str(content@.take((i + 1) as int)));
        }
        i += 1;
    }
    out.push('"');
    proof {
        assert(content@.take(n as int) =~= content@);
        assert(out@ =~= old(out)@ + qesc(content@));
    }
}

fn digit_char_of(d: u8) -> (c: char)
    requires
        d < 10,
    ensures
        c == digit_char(d as int),
{
    match d {
        0 => '0',
        1 => '1',
        2 => '2',
        3 => '3',
        4 => '4',
        5 => '5',
        6 => '6',
        7 => '7',
        8 => '8',
        _ => '9',
    }
}

fn push_focus(out: &mut Vec<char>, f: u8)
    ensures
        final(out)@ == old(out)@ + dec_digits(f as int),
{
    if f >= 100 {
        let t = f / 10;
        out.push(digit_char_of(t / 10));
        out.push(digit_char_of(t % 10));
        out.push(digit_char_of(f % 10));
        proof {
            reveal_with_fuel(dec_digits, 4);
            assert(out@ =~= old(out)@ + dec_digits(f as int));
        }
    } else if f >= 10 {
        out.push(digit_char_of(f / 10));
        out.push(digit_char_of(f % 10));
        proof {
            reveal_with_fuel(dec_digits, 3);
            assert(out@ =~= old(out)@ + dec_digits(f as int));
        }
    } else {
        out.push(digit_char_of(f));
        proof {
            assert(out@ =~= old(out)@ + dec_digits(f as int));
        }
    }
}

fn name_key_chars() -> (v: Vec<char>)
    ensures
        v@ == name_key(),
{
    let mut v: Vec<char> = Vec::new();
    v.push('n');
    v.push('a');
    v.push('m');
    v.push('e');
    proof {
        assert(v@ =~= name_key());
    }
    v
}

fn status_key_chars() -> (v: Vec<char>)
    ensures
        v@ == status_key(),
{
    let mut v: Vec<char> = Vec::new();
    v.push('s');
    v.push('t');
    v.push('a');
    v.push('t');
    v.push('u');
    v.push('s');
    proof {
        assert(v@ =~= status_key());
    }
    v
}

fn focus_key_chars() -> (v: Vec<char>)
    ensures
        v@ == focus_key(),
{
    let mut v: Vec<char> = Vec::new();
    v.push('f');
    v.push('o');
    v.push('c');
    v.push('u');
    v.push('s');
    proof {
        assert(v@ =~= focus_key());
    }
    v
}

fn status_chars(st: &Status) -> (v: Vec<char>)
    ensures
        v@ == status_str(*st),
{
    let mut v: Vec<char> = Vec::new();
    match st {
        Status::Active => {
            v.push('A');
            v.push('c');
            v.push('t');
            v.push('i');
            v.push('v');
            v.push('e');
        },
        Status::Inactive => {
            v.push('I');
            v.push('n');
            v.push('a');
            v.push('c');
            v.push('t');
            v.push('i');
            v.push('v');
            v.push('e');
        },
        Status::Archived => {
            v.push('A');
            v.push('r');
            v.push('c');
            v.push('h');
            v.push('i');
            v.push('v');
            v.push('e');
            v.push('d');
        },
    }
    proof {
        assert(v@ =~= status_str(*st));
    }
    v
}

fn push_object(out: &mut Vec<char>, p: &Project, mo: &Vec<char>, mc: &Vec<char>, me: &Vec<char>)
    ensures
        final(out)@ == old(out)@ + ser_object_ws(p@, mo@, mc@, me@),
{
    out.push('{');
    push_all(out, mo);
    let nk = name_key_chars();
    push_quoted(out, &nk);
    out.push(':');
    push_all(out, mc);
    let namev = str_to_chars(p.name.as_str());
    push_quoted(out, &namev);
    out.push(',');
    push_all(out, mo);
    let sk = status_key_chars();
    push_quoted(out, &sk);
    out.push(':');
    push_all(out, mc);
    let sv = status_chars(&p.status);
    push_quoted(out, &sv);
    out.push(',');
    push_all(out, mo);
    let fk = focus_key_chars();
    push_quoted(out, &fk);
    out.push(':');
    push_all(out, mc);
    push_focus(out, p.focus);
    push_all(out, me);
    out.push('}');
    proof {
        assert(out@ =~= old(out)@ + ser_object_ws(p@, mo@, mc@, me@));
    }
}

fn push_elems(
    out: &mut Vec<char>,
    projects: &Vec<Project>,
    i: usize,
    ao: &Vec<char>,
    mo: &Vec<char>,
    mc: &Vec<char>,
    me: &Vec<char>,
)
    requires
        i < projects@.len(),
    ensures
        final(out)@ == old(out)@ + ser_elems_ws(
            projects.deep_view().skip(i as int),
            ao@,
            mo@,
            mc@,
            me@,
        ),
    decreases projects@.len() - i,
{
    let ghost tail = projects.deep_view().skip(i as int);
    proof {
        assert(tail[0] == projects.deep_view()[i as int]);
    }
    let n = projects.len();
    push_object(out, &projects[i], mo, mc, me);
    if i + 1 < n {
        out.push(',');
        push_all(out, ao);
        push_elems(out, projects, i + 1, ao, mo, mc, me);
        proof {
            assert(tail.drop_first() =~= projects.deep_view().skip((i + 1) as int));
            assert(out@ =~= old(out)@ + ser_elems_ws(tail, ao@, mo@, mc@, me@));
        }
    } else {
        proof {
            assert(tail.len() == 1);
            assert(out@ =~= old(out)@ + ser_elems_ws(tail, ao@, mo@, mc@, me@));
        }
    }
}

fn serialize_ws(
    projects: &Vec<Project>,
    ao: &Vec<char>,
    ae: &Vec<char>,
    mo: &Vec<char>,
    mc: &Vec<char>,
    me: &Vec<char>,
) -> (out: Vec<char>)
    ensures
        out@ == ser_array_ws(projects.deep_view(), ao@, ae@, mo@, mc@, me@),
{
    let mut out: Vec<char> = Vec::new();
    out.push('[');
    if projects.len() > 0 {
        push_all(&mut out, ao);
        proof {
            assert(projects.deep_view().skip(0) =~= projects.deep_view());
        }
        push_elems(&mut out, projects, 0, ao, mo, mc, me);
        push_all(&mut out, ae);
        out.push(']');
        proof {
            assert(out@ =~= ser_array_ws(projects.deep_view(), ao@, ae@, mo@, mc@, me@));
        }
    } else {
        out.push(']');
        proof {
            assert(out@ =~= ser_array_ws(projects.deep_view(), ao@, ae@, mo@, mc@, me@));
        }
    }
    out
}

/// The collection as compact JSON, no whitespace.
pub fn serialize_projects(projects: &Vec<Project>) -> (s: String)
    ensures
        s@ == ser_compact(projects.deep_view()),
{
    let e: Vec<char> = Vec::new();
    let out = serialize_ws(projects, &e, &e, &e, &e, &e);
    chars_to_string(&out)
}

/// The collection as pretty-printed JSON: one record per line, members
/// indented, a space after each colon.
pub fn serialize_projects_pretty(projects: &Vec<Project>) -> (s: String)
    ensures
        s@ == ser_pretty(projects.deep_view()),
{
    let mut ao: Vec<char> = Vec::new();
    ao.push('\n');
    ao.push(' ');
    ao.push(' ');
    let mut ae: Vec<char> = Vec::new();
    ae.push('\n');
    let mut mo: Vec<char> = Vec::new();
    mo.push('\n');
    mo.push(' ');
    mo.push(' ');
    mo.push(' ');
    mo.push(' ');
    let mut mc: Vec<char> = Vec::new();
    mc.push(' ');
    let mut me: Vec<char> = Vec::new();
    me.push('\n');
    me.push(' ');
    me.push(' ');
    proof {
        assert(ao@ =~= seq!['\n', ' ', ' ']);
        assert(ae@ =~= seq!['\n']);
        assert(mo@ =~= seq!['\n', ' ', ' ', ' ', ' ']);
        assert(mc@ =~= seq![' ']);
        assert(me@ =~= seq!['\n', ' ', ' ']);
    }
    let out = serialize_ws(projects, &ao, &ae, &mo, &mc, &me);
    chars_to_string(&out)
}

// ------------------------------------------------------------------
// The parser, as a total function on the remaining input. Each piece
// consumes from the front and returns what it parsed with the rest of
// the input, or nothing when the input does not fit the format.
// ------------------------------------------------------------------
/// The input after any leading whitespace.
pub open spec fn spec_skip_ws(s: Seq<char>) -> Seq<char>
    decreases s.len(),
{
    if s.len() > 0 && is_ws_char(s[0]) {
        spec_skip_ws(s.drop_first())
    } else {
        s
    }
}

/// The body of a quoted string, after the opening quote: characters up
/// to an unescaped closing quote, with `\"` and `\\` unescaped.
pub open spec fn spec_parse_str_body(s: Seq<char>, acc: Seq<char>) -> Option<
    (Seq<char>, Seq<char>),
>
    decreases s.len(),
{
    if s.len() == 0 {
        None
    } else if s[0] == '"' {
        Some((acc, s.drop_first()))
    } else if s[0] == '\\' {
        if s.len() >= 2 && (s[1] == '"' || s[1] == '\\') {
            spec_parse_str_body(s.skip(2), acc.push(s[1]))
        } else {
            None
        }
    } else {
        spec_parse_str_body(s.drop_first(), acc.push(s[0]))
    }
}

/// A quoted string.
pub open spec fn spec_parse_string(s: Seq<char>) -> Option<(Seq<char>, Seq<char>)> {
    if s.len() > 0 && s[0] == '"' {
        spec_parse_str_body(s.drop_first(), Seq::empty())
    } else {
        None
    }
}

/// A run of decimal digits accumulated onto `acc`; fails past 255.
pub open spec fn spec_parse_num(s: Seq<char>, acc: int) -> Option<(u8, Seq<char>)>
    decreases s.len(),
{
    if s.len() > 0 && is_digit_char(s[0]) {
        let v = acc * 10 + digit_val(s[0]);
        if v > 255 {
            None
        } else {
            spec_parse_num(s.drop_first(), v)
        }
    } else {
        if 0 <= acc <= 255 {
            Some((acc as u8, s))
        } else {
            None
        }
    }
}

/// A focus value: at least one digit, value at most 255.
pub open spec fn spec_parse_focus(s: Seq<char>) -> Option<(u8, Seq<char>)> {
    if s.len() > 0 && is_digit_char(s[0]) {
        spec_parse_num(s, 0)
    } else {
        None
    }
}

/// The fields seen so far while reading one object.
pub struct PartialView {
    pub name: Option<Seq<char>>,
    pub status: Option<Status>,
    pub focus: Option<u8>,
}

pub open spec fn empty_partial() -> PartialView {
    PartialView { name: None, status: None, focus: None }
}

/// One `"key": value` member. A key outside the three fields, a key
/// seen twice, or a status outside the three spellings fails.
pub open spec fn spec_parse_member(s: Seq<char>, part: PartialView) -> Option<
    (PartialView, Seq<char>),
> {
    match spec_parse_string(s) {
        Some((key, r1)) => {
            let r2 = spec_skip_ws(r1);
            if r2.len() > 0 && r2[0] == ':' {
                let r3 = spec_skip_ws(r2.drop_first());
                if key == name_key() {
                    if part.name is Some {
                        None
                    } else {
                        match spec_parse_string(r3) {
                            Some((v, r4)) => Some(
                                (
                                    PartialView {
                                        name: Some(v),
                                        status: part.status,
                                        focus: part.focus,
                                    },
                                    r4,
                                ),
                            ),
                            None => None,
                        }
                    }
                } else if key == status_key() {
                    if part.status is Some {
                        None
                    } else {
                        match spec_parse_string(r3) {
                            Some((v, r4)) => match status_of_str(v) {
                                Some(st) => Some(
                                    (
                                        PartialView {
                                            name: part.name,
                                            status: Some(st),
                                            focus: part.focus,
                                        },
                                        r4,
                                    ),
                                ),
                                None => None,
                            },
                            None => None,
                        }
                    }
                } else if key == focus_key() {
                    if part.focus is Some {
                        None
                    } else {
                        match spec_parse_focus(r3) {
                            Some((f, r4)) => Some(
                                (
                                    PartialView {
                                        name: part.name,
                                        status: part.status,
                                        focus: Some(f),
                                    },
                                    r4,
                                ),
                            ),
                            None => None,
                        }
                    }
                } else {
                    None
                }
            } else {
                None
            }
        },
        None => None,
    }
}

/// One object: three members, each field exactly once, in any order.
pub open spec fn spec_parse_object(s: Seq<char>) -> Option<(ProjectView, Seq<char>)> {
    if s.len() > 0 && s[0] == '{' {
        match spec_parse_member(spec_skip_ws(s.drop_first()), empty_partial()) {
            Some((p1, r1)) => {
                let r2 = spec_skip_ws(r1);
                if r2.len() > 0 && r2[0] == ',' {
                    match spec_parse_member(spec_skip_ws(r2.drop_first()), p1) {
                        Some((p2, r3)) => {
                            let r4 = spec_skip_ws(r3);
                            if r4.len() > 0 && r4[0] == ',' {
                                match spec_parse_member(spec_skip_ws(r4.drop_first()), p2) {
                                    Some((p3, r5)) => {
                                        let r6 = spec_skip_ws(r5);
                                        if r6.len() > 0 && r6[0] == '}' {
                                            match (p3.name, p3.status, p3.focus) {
                                                (Some(n), Some(st), Some(f)) => Some(
                                                    (
                                                        ProjectView {
                                                            name: n,
                                                            status: st,
                                                            focus: f,
                                                        },
                                                        r6.drop_first(),
                                                    ),
                                                ),
                                                _ => None,
                                            }
                                        } else {
                                            None
                                        }
                                    },
                                    None => None,
                                }
                            } else {
                                None
                            }
                        },
                        None => None,
                    }
                } else {
                    None
                }
            },
            None => None,
        }
    } else {
        None
    }
}

/// Skipping whitespace never lengthens the input.
pub proof fn lemma_skip_ws_len(s: Seq<char>)
    ensures
        spec_skip_ws(s).len() <= s.len(),
    decreases s.len(),
{
    if s.len() > 0 && is_ws_char(s[0]) {
        lemma_skip_ws_len(s.drop_first());
    }
}

/// A parsed string body consumes at least its closing quote.
pub proof fn lemma_str_body_len(s: Seq<char>, acc: Seq<char>)
    ensures
        spec_parse_str_body(s, acc) is Some ==> (spec_parse_str_body(s, acc)->Some_0).1.len()
            < s.len(),
    decreases s.len(),
{
    if s.len() == 0 {
    } else if s[0] == '"' {
    } else if s[0] == '\\' {
        if s.len() >= 2 && (s[1] == '"' || s[1] == '\\') {
            lemma_str_body_len(s.skip(2), acc.push(s[1]));
        }
    } else {
        lemma_str_body_len(s.drop_first(), acc.push(s[0]));
    }
}

/// A parsed string consumes at least its two quotes.
pub proof fn lemma_parse_string_len(s: Seq<char>)
    ensures
        spec_parse_string(s) is Some ==> (spec_parse_string(s)->Some_0).1.len() < s.len(),
{
    if s.len() > 0 && s[0] == '"' {
        lemma_str_body_len(s.drop_first(), Seq::empty());
    }
}

/// A parsed number never lengthens the input.
pub proof fn lemma_num_len(s: Seq<char>, acc: int)
    ensures
        spec_parse_num(s, acc) is Some ==> (spec_parse_num(s, acc)->Some_0).1.len() <= s.len(),
    decreases s.len(),
{
    if s.len() > 0 && is_digit_char(s[0]) {
        let v = acc * 10 + digit_val(s[0]);
        if v <= 255 {
            lemma_num_len(s.drop_first(), v);
        }
    }
}

/// A parsed focus consumes at least one digit.
pub proof fn lemma_focus_len(s: Seq<char>)
    ensures
        spec_parse_focus(s) is Some ==> (spec_parse_focus(s)->Some_0).1.len() < s.len(),
{
    if s.len() > 0 && is_digit_char(s[0]) {
        let v = 0 * 10 + digit_val(s[0]);
        if v <= 255 {
            lemma_num_len(s.drop_first(), v);
        }
    }
}

/// A parsed member consumes at least its key.
pub proof fn lemma_member_len(s: Seq<char>, part: PartialView)
    ensures
        spec_parse_member(s, part) is Some ==> (spec_parse_member(s, part)->Some_0).1.len()
            < s.len(),
{
    lemma_parse_string_len(s);
    if spec_parse_string(s) is Some {
        let (key, r1) = spec_parse_string(s)->Some_0;
        lemma_skip_ws_len(r1);
        let r2 = spec_skip_ws(r1);
        if r2.len() > 0 && r2[0] == ':' {
            lemma_skip_ws_len(r2.drop_first());
            let r3 = spec_skip_ws(r2.drop_first());
            lemma_parse_string_len(r3);
            lemma_focus_len(r3);
        }
    }
}

/// A parsed object consumes at least its braces.
pub proof fn lemma_object_len(s: Seq<char>)
    ensures
        spec_parse_object(s) is Some ==> (spec_parse_object(s)->Some_0).1.len() < s.len(),
{
    if s.len() > 0 && s[0] == '{' {
        lemma_skip_ws_len(s.drop_first());
        let r0 = spec_skip_ws(s.drop_first());
        lemma_member_len(r0, empty_partial());
        if spec_parse_member(r0, empty_partial()) is Some {
            let (p1, r1) = spec_parse_member(r0, empty_partial())->Some_0;
            lemma_skip_ws_len(r1);
            let r2 = spec_skip_ws(r1);
            if r2.len() > 0 && r2[0] == ',' {
                lemma_skip_ws_len(r2.drop_first());
                let m2in = spec_skip_ws(r2.drop_first());
                lemma_member_len(m2in, p1);
                if spec_parse_member(m2in, p1) is Some {
                    let (p2, r3) = spec_parse_member(m2in, p1)->Some_0;
                    lemma_skip_ws_len(r3);
                    let r4 = spec_skip_ws(r3);
                    if r4.len() > 0 && r4[0] == ',' {
                        lemma_skip_ws_len(r4.drop_first());
                        let m3in = spec_skip_ws(r4.drop_first());
                        lemma_member_len(m3in, p2);
                        if spec_parse_member(m3in, p2) is Some {
                            let (p3, r5) = spec_parse_member(m3in, p2)->Some_0;
                            lemma_skip_ws_len(r5);
                        }
                    }
                }
            }
        }
    }
}

/// The objects of the array, after its first `[` (and not `]`): one
/// object, then either a comma and more objects or the closing `]`.
pub open spec fn spec_parse_elems(s: Seq<char>, acc: Seq<ProjectView>) -> Option<
    (Seq<ProjectView>, Seq<char>),
>
    decreases s.len(),
    via spec_parse_elems_dec
{
    match spec_parse_object(s) {
        Some((p, r1)) => {
            let r2 = spec_skip_ws(r1);
            if r2.len() > 0 && r2[0] == ',' {
                spec_parse_elems(spec_skip_ws(r2.drop_first()), acc.push(p))
            } else if r2.len() > 0 && r2[0] == ']' {
                Some((acc.push(p), r2.drop_first()))
            } else {
                None
            }
        },
        None => None,
    }
}

#[via_fn]
proof fn spec_parse_elems_dec(s: Seq<char>, acc: Seq<ProjectView>) {
    lemma_object_len(s);
    if spec_parse_object(s) is Some {
        let (p, r1) = spec_parse_object(s)->Some_0;
        lemma_skip_ws_len(r1);
        let r2 = spec_skip_ws(r1);
        if r2.len() > 0 && r2[0] == ',' {
            lemma_skip_ws_len(r2.drop_first());
        }
    }
}

/// The whole array, `[` through `]`.
pub open spec fn spec_parse_array(s: Seq<char>) -> Option<(Seq<ProjectView>, Seq<char>)> {
    if s.len() > 0 && s[0] == '[' {
        let r = spec_skip_ws(s.drop_first());
        if r.len() > 0 && r[0] == ']' {
            Some((Seq::empty(), r.drop_first()))
        } else {
            spec_parse_elems(r, Seq::empty())
        }
    } else {
        None
    }
}

/// The whole document: one array, nothing but whitespace around it.
pub open spec fn spec_parse_projects(s: Seq<char>) -> Option<Seq<ProjectView>> {
    match spec_parse_array(spec_skip_ws(s)) {
        Some((ps, r)) => {
            if spec_skip_ws(r).len() == 0 {
                Some(ps)
            } else {
                None
            }
        },
        None => None,
    }
}

// ------------------------------------------------------------------
// The executable parser. Each function walks the character vector from
// an index and returns exactly what the parsing functions above say.
// ------------------------------------------------------------------
fn is_ws(c: char) -> (b: bool)
    ensures
        b == is_ws_char(c),
{
    c == ' ' || c == '\n' || c == '\t' || c == '\r'
}

fn is_digit(c: char) -> (b: bool)
    ensures
        b == is_digit_char(c),
{
    c == '0' || c == '1' || c == '2' || c == '3' || c == '4' || c == '5' || c == '6' || c == '7'
        || c == '8' || c == '9'
}

fn digit_val_of(c: char) -> (d: u8)
    requires
        is_digit_char(c),
    ensures
        d as int == digit_val(c),
{
    if c == '0' {
        0
    } else if c == '1' {
        1
    } else if c == '2' {
        2
    } else if c == '3' {
        3
    } else if c == '4' {
        4
    } else if c == '5' {
        5
    } else if c == '6' {
        6
    } else if c == '7' {
        7
    } else if c == '8' {
        8
    } else {
        9
    }
}

fn skip_ws(s: &Vec<char>, i: usize) -> (r: usize)
    requires
        i <= s@.len(),
    ensures
        i <= r <= s@.len(),
        s@.skip(r as int) == spec_skip_ws(s@.skip(i as int)),
    decreases s@.len() - i,
{
    if i < s.len() && is_ws(s[i]) {
        proof {
            assert(s@.skip(i as int)[0] == s@[i as int]);
            assert(s@.skip(i as int).drop_first() =~= s@.skip((i + 1) as int));
        }
        skip_ws(s, i + 1)
    } else {
        i
    }
}

fn parse_str_body(s: &Vec<char>, i: usize, acc: Vec<char>) -> (r: Option<(Vec<char>, usize)>)
    requires
        i <= s@.len(),
    ensures
        match r {
            Some(vj) => i < vj.1 <= s@.len() && spec_parse_str_body(s@.skip(i as int), acc@)
                == Some((vj.0@, s@.skip(vj.1 as int))),
            None => spec_parse_str_body(s@.skip(i as int), acc@) is None,
        },
    decreases s@.len() - i,
{
    let ghost ss = s@.skip(i as int);
    if i >= s.len() {
        return None;
    }
    let c = s[i];
    proof {
        assert(ss[0] == s@[i as int]);
    }
    if c == '"' {
        proof {
            assert(ss.drop_first() =~= s@.skip((i + 1) as int));
        }
        Some((acc, i + 1))
    } else if c == '\\' {
        if i + 1 < s.len() {
            let c2 = s[i + 1];
            proof {
                assert(ss[1] == s@[(i + 1) as int]);
            }
            if c2 == '"' || c2 == '\\' {
                let mut acc2 = acc;
                acc2.push(c2);
                proof {
                    assert(ss.skip(2) =~= s@.skip((i + 2) as int));
                }
                parse_str_body(s, i + 2, acc2)
            } else {
                None
            }
        } else {
            proof {
                assert(ss.len() == 1);
            }
            None
        }
    } else {
        let mut acc2 = acc;
        acc2.push(c);
        proof {
            assert(ss.drop_first() =~= s@.skip((i + 1) as int));
        }
        parse_str_body(s, i + 1, acc2)
    }
}

fn parse_string(s: &Vec<char>, i: usize) -> (r: Option<(Vec<char>, usize)>)
    requires
        i <= s@.len(),
    ensures
        match r {
            Some(vj) => i < vj.1 <= s@.len() && spec_parse_string(s@.skip(i as int)) == Some(
                (vj.0@, s@.skip(vj.1 as int)),
            ),
            None => spec_parse_string(s@.skip(i as int)) is None,
        },
{
    if i < s.len() {
        let c = s[i];
        proof {
            assert(s@.skip(i as int)[0] == s@[i as int]);
        }
        if c == '"' {
            proof {
                assert(s@.skip(i as int).drop_first() =~= s@.skip((i + 1) as int));
            }
            let e: Vec<char> = Vec::new();
            parse_str_body(s, i + 1, e)
        } else {
            None
        }
    } else {
        None
    }
}

fn parse_num(s: &Vec<char>, i: usize, acc: u16) -> (r: Option<(u8, usize)>)
    requires
        i <= s@.len(),
        acc <= 255,
    ensures
        match r {
            Some(fj) => i <= fj.1 <= s@.len() && spec_parse_num(s@.skip(i as int), acc as int)
                == Some((fj.0, s@.skip(fj.1 as int))) && ((i < s@.len() && is_digit_char(
                s@[i as int],
            )) ==> i < fj.1),
            None => spec_parse_num(s@.skip(i as int), acc as int) is None,
        },
    decreases s@.len() - i,
{
    let ghost ss = s@.skip(i as int);
    if i < s.len() && is_digit(s[i]) {
        proof {
            assert(ss[0] == s@[i as int]);
        }
        let d = digit_val_of(s[i]);
        let v: u16 = acc * 10 + (d as u16);
        if v > 255 {
            None
        } else {
            proof {
                assert(ss.drop_first() =~= s@.skip((i + 1) as int));
            }
            parse_num(s, i + 1, v)
        }
    } else {
        Some((acc as u8, i))
    }
}

fn parse_focus(s: &Vec<char>, i: usize) -> (r: Option<(u8, usize)>)
    requires
        i <= s@.len(),
    ensures
        match r {
            Some(fj) => i < fj.1 <= s@.len() && spec_parse_focus(s@.skip(i as int)) == Some(
                (fj.0, s@.skip(fj.1 as int)),
            ),
            None => spec_parse_focus(s@.skip(i as int)) is None,
        },
{
    if i < s.len() && is_digit(s[i]) {
        proof {
            assert(s@.skip(i as int)[0] == s@[i as int]);
        }
        parse_num(s, i, 0)
    } else {
        None
    }
}

/// Character-for-character comparison of a vector against a slice.
fn chars_eq_str(v: &Vec<char>, t: &str) -> (b: bool)
    ensures
        b == (v@ == t@),
{
    let n = t.unicode_len();
    if v.len() != n {
        return false;
    }
    let mut i: usize = 0;
    while i < n
        invariant
            n == t@.len(),
            n == v@.len(),
            0 <= i <= n,
            forall|j: int| 0 <= j < i ==> v@[j] == t@[j],
        decreases n - i,
    {
        if v[i] != t.get_char(i) {
            return false;
        }
        i += 1;
    }
    proof {
        assert(v@ =~= t@);
    }
    true
}

fn status_from_chars(v: &Vec<char>) -> (r: Option<Status>)
    ensures
        r == status_of_str(v@),
{
    if chars_eq_str(v, "Active") {
        proof {
            reveal_strlit("Active");
            assert("Active"@ =~= status_str(Status::Active));
        }
        Some(Status::Active)
    } else if chars_eq_str(v, "Inactive") {
        proof {
            reveal_strlit("Inactive");
            assert("Inactive"@ =~= status_str(Status::Inactive));
        }
        Some(Status::Inactive)
    } else if chars_eq_str(v, "Archived") {
        proof {
            reveal_strlit("Archived");
            assert("Archived"@ =~= status_str(Status::Archived));
        }
        Some(Status::Archived)
    } else {
        proof {
            reveal_strlit("Active");
            reveal_strlit("Inactive");
            reveal_strlit("Archived");
            assert("Active"@ =~= status_str(Status::Active));
            assert("Inactive"@ =~= status_str(Status::Inactive));
            assert("Archived"@ =~= status_str(Status::Archived));
        }
        None
    }
}

fn is_name_key(v: &Vec<char>) -> (b: bool)
    ensures
        b == (v@ == name_key()),
{
    let r = chars_eq_str(v, "name");
    proof {
        reveal_strlit("name");
        assert("name"@ =~= name_key());
    }
    r
}

fn is_status_key(v: &Vec<char>) -> (b: bool)
    ensures
        b == (v@ == status_key()),
{
    let r = chars_eq_str(v, "status");
    proof {
        reveal_strlit("status");
        assert("status"@ =~= status_key());
    }
    r
}

fn is_focus_key(v: &Vec<char>) -> (b: bool)
    ensures
        b == (v@ == focus_key()),
{
    let r = chars_eq_str(v, "focus");
    proof {
        reveal_strlit("focus");
        assert("focus"@ =~= focus_key());
    }
    r
}

/// The fields read so far while parsing one object.
struct PartialRec {
    name: Option<String>,
    status: Option<Status>,
    focus: Option<u8>,
}

impl View for PartialRec {
    type V = PartialView;

    closed spec fn view(&self) -> PartialView {
        PartialView {
            name: match self.name {
                Some(n) => Some(n@),
                None => None,
            },
            status: self.status,
            focus: self.focus,
        }
    }
}

fn parse_member(s: &Vec<char>, i: usize, part: PartialRec) -> (r: Option<(PartialRec, usize)>)
    requires
        i <= s@.len(),
    ensures
        match r {
            Some(pj) => i < pj.1 <= s@.len() && spec_parse_member(s@.skip(i as int), part@)
                == Some((pj.0@, s@.skip(pj.1 as int))),
            None => spec_parse_member(s@.skip(i as int), part@) is None,
        },
{
    match parse_string(s, i) {
        None => None,
        Some((key, j1)) => {
            let j2 = skip_ws(s, j1);
            if j2 < s.len() && s[j2] == ':' {
                proof {
                    assert(s@.skip(j2 as int)[0] == s@[j2 as int]);
                    assert(s@.skip(j2 as int).drop_first() =~= s@.skip((j2 + 1) as int));
                }
                let j3 = skip_ws(s, j2 + 1);
                if is_name_key(&key) {
                    if part.name.is_some() {
                        None
                    } else {
                        match parse_string(s, j3) {
                            Some((v, j4)) => {
                                let nm = chars_to_string(&v);
                                Some(
                                    (
                                        PartialRec {
                                            name: Some(nm),
                                            status: part.status,
                                            focus: part.focus,
                                        },
                                        j4,
                                    ),
                                )
                            },
                            None => None,
                        }
                    }
                } else if is_status_key(&key) {
                    if part.status.is_some() {
                        None
                    } else {
                        match parse_string(s, j3) {
                            Some((v, j4)) => match status_from_chars(&v) {
                                Some(st) => Some(
                                    (
                                        PartialRec {
                                            name: part.name,
                                            status: Some(st),
                                            focus: part.focus,
                                        },
                                        j4,
                                    ),
                                ),
                                None => None,
                            },
                            None => None,
                        }
                    }
                } else if is_focus_key(&key) {
                    if part.focus.is_some() {
                        None
                    } else {
                        match parse_focus(s, j3) {
                            Some((f, j4)) => Some(
                                (
                                    PartialRec {
                                        name: part.name,
                                        status: part.status,
                                        focus: Some(f),
                                    },
                                    j4,
                                ),
                            ),
                            None => None,
                        }
                    }
                } else {
                    None
                }
            } else {
                None
            }
        },
    }
}

fn parse_object(s: &Vec<char>, i: usize) -> (r: Option<(Project, usize)>)
    requires
        i <= s@.len(),
    ensures
        match r {
            Some(pj) => i < pj.1 <= s@.len() && spec_parse_object(s@.skip(i as int)) == Some(
                (pj.0@, s@.skip(pj.1 as int)),
            ),
            None => spec_parse_object(s@.skip(i as int)) is None,
        },
{
    if i < s.len() && s[i] == '{' {
        proof {
            assert(s@.skip(i as int)[0] == s@[i as int]);
            assert(s@.skip(i as int).drop_first() =~= s@.skip((i + 1) as int));
        }
        let j0 = skip_ws(s, i + 1);
        let pr = PartialRec { name: None, status: None, focus: None };
        proof {
            assert(pr@ == empty_partial());
        }
        match parse_member(s, j0, pr) {
            Some((p1, j1)) => {
                let j2 = skip_ws(s, j1);
                if j2 < s.len() && s[j2] == ',' {
                    proof {
                        assert(s@.skip(j2 as int)[0] == s@[j2 as int]);
                        assert(s@.skip(j2 as int).drop_first() =~= s@.skip((j2 + 1) as int));
                    }
                    let j2b = skip_ws(s, j2 + 1);
                    match parse_member(s, j2b, p1) {
                        Some((p2, j3)) => {
                            let j4 = skip_ws(s, j3);
                            if j4 < s.len() && s[j4] == ',' {
                                proof {
                                    assert(s@.skip(j4 as int)[0] == s@[j4 as int]);
                                    assert(s@.skip(j4 as int).drop_first() =~= s@.skip(
                                        (j4 + 1) as int,
                                    ));
                                }
                                let j4b = skip_ws(s, j4 + 1);
                                match parse_member(s, j4b, p2) {
                                    Some((p3, j5)) => {
                                        let j6 = skip_ws(s, j5);
                                        if j6 < s.len() && s[j6] == '}' {
                                            proof {
                                                assert(s@.skip(j6 as int)[0] == s@[j6 as int]);
                                                assert(s@.skip(j6 as int).drop_first() =~= s@.skip(
                                                    (j6 + 1) as int,
                                                ));
                                            }
                                            match (p3.name, p3.status, p3.focus) {
                                                (Some(n), Some(st), Some(f)) => Some(
                                                    (
                                                        Project { name: n, status: st, focus: f },
                                                        j6 + 1,
                                                    ),
                                                ),
                                                _ => None,
                                            }
                                        } else {
                                            None
                                        }
                                    },
                                    None => None,
                                }
                            } else {
                                None
                            }
                        },
                        None => None,
                    }
                } else {
                    None
                }
            },
            None => None,
        }
    } else {
        None
    }
}

fn parse_elems(s: &Vec<char>, i: usize, acc: Vec<Project>) -> (r: Option<(Vec<Project>, usize)>)
    requires
        i <= s@.len(),
    ensures
        match r {
            Some(pj) => pj.1 <= s@.len() && spec_parse_elems(s@.skip(i as int), acc.deep_view())
                == Some((pj.0.deep_view(), s@.skip(pj.1 as int))),
            None => spec_parse_elems(s@.skip(i as int), acc.deep_view()) is None,
        },
    decreases s@.len() - i,
{
    match parse_object(s, i) {
        Some((p, j1)) => {
            let j2 = skip_ws(s, j1);
            if j2 < s.len() && s[j2] == ',' {
                proof {
                    assert(s@.skip(j2 as int)[0] == s@[j2 as int]);
                    assert(s@.skip(j2 as int).drop_first() =~= s@.skip((j2 + 1) as int));
                }
                let j3 = skip_ws(s, j2 + 1);
                let mut acc2 = acc;
                acc2.push(p);
                proof {
                    assert(acc2.deep_view() =~= acc.deep_view().push(p@));
                }
                parse_elems(s, j3, acc2)
            } else if j2 < s.len() && s[j2] == ']' {
                proof {
                    assert(s@.skip(j2 as int)[0] == s@[j2 as int]);
                    assert(s@.skip(j2 as int).drop_first() =~= s@.skip((j2 + 1) as int));
                }
                let mut acc2 = acc;
                acc2.push(p);
                proof {
                    assert(acc2.deep_view() =~= acc.deep_view().push(p@));
                }
                Some((acc2, j2 + 1))
            } else {
                None
            }
        },
        None => None,
    }
}

/// Parses the text of a whole file: a JSON array of records, in any
/// whitespace and field order. Returns the collection exactly when the
/// text fits the format, and the deserialization error otherwise.
pub fn parse_projects(text: &str) -> (r: Result<Vec<Project>, StoreError>)
    ensures
        match r {
            Ok(ps) => spec_parse_projects(text@) == Some(ps.deep_view()),
            Err(e) => e == StoreError::DeserializationError && spec_parse_projects(text@) is None,
        },
{
    let s = str_to_chars(text);
    proof {
        assert(s@.skip(0) =~= s@);
    }
    let i0 = skip_ws(&s, 0);
    if i0 < s.len() && s[i0] == '[' {
        proof {
            assert(s@.skip(i0 as int)[0] == s@[i0 as int]);
            assert(s@.skip(i0 as int).drop_first() =~= s@.skip((i0 + 1) as int));
        }
        let i1 = skip_ws(&s, i0 + 1);
        if i1 < s.len() && s[i1] == ']' {
            proof {
                assert(s@.skip(i1 as int)[0] == s@[i1 as int]);
                assert(s@.skip(i1 as int).drop_first() =~= s@.skip((i1 + 1) as int));
            }
            let i2 = skip_ws(&s, i1 + 1);
            if i2 == s.len() {
                let ps: Vec<Project> = Vec::new();
                proof {
                    assert(ps.deep_view() =~= Seq::<ProjectView>::empty());
                }
                Ok(ps)
            } else {
                Err(StoreError::DeserializationError)
            }
        } else {
            let e: Vec<Project> = Vec::new();
            proof {
                assert(e.deep_view() =~= Seq::<ProjectView>::empty());
            }
            match parse_elems(&s, i1, e) {
                Some((ps, j)) => {
                    let j2 = skip_ws(&s, j);
                    if j2 == s.len() {
                        Ok(ps)
                    } else {
                        Err(StoreError::DeserializationError)
                    }
                },
                None => Err(StoreError::DeserializationError),
            }
        }
    } else {
        Err(StoreError::DeserializationError)
    }
}

} // verus!
