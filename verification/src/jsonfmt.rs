//! JSON framing of the published artifacts. The library frames its own JSON
//! text: a ghost JSON value gives every artifact an exact mathematical form,
//! `json_text` says what text it prints as, and the writers produce exactly
//! that text. Reading the section artifact back from its JSON form is proved
//! to return the sections unchanged.
use vstd::prelude::*;

verus! {

use crate::sections::{Capa, CapaV, SectionV, Sections};
use crate::text;

broadcast use vstd::string::group_string_axioms;

/// A JSON document, as a mathematical value. A number is carried as its
/// literal text.
pub ghost enum JsonV {
    Null,
    Bool(bool),
    Num(Seq<char>),
    Str(Seq<char>),
    Arr(Seq<JsonV>),
    Obj(Seq<(Seq<char>, JsonV)>),
}

/// The lower-case hexadecimal digit for `n`.
pub open spec fn hex_digit(n: int) -> char {
    if 0 <= n < 10 {
        (('0' as int) + n) as char
    } else {
        (('a' as int) + n - 10) as char
    }
}

/// How one character appears inside a JSON string literal.
pub open spec fn escaped_char(c: char) -> Seq<char> {
    if c == '"' {
        seq!['\\', '"']
    } else if c == '\\' {
        seq!['\\', '\\']
    } else if c == '\n' {
        seq!['\\', 'n']
    } else if c == '\r' {
        seq!['\\', 'r']
    } else if c == '\t' {
        seq!['\\', 't']
    } else if '\u{0}' <= c && c <= '\u{1f}' {
        seq!['\\', 'u', '0', '0', hex_digit((c as int) / 16), hex_digit((c as int) % 16)]
    } else {
        seq![c]
    }
}

/// The body of a JSON string literal for `s`.
pub open spec fn escape_str(s: Seq<char>) -> Seq<char>
    decreases s.len(),
{
    if s.len() == 0 {
        Seq::empty()
    } else {
        escaped_char(s[0]) + escape_str(s.drop_first())
    }
}

/// The text a JSON value prints as: compact, with object keys and strings
/// escaped.
pub open spec fn json_text(v: JsonV) -> Seq<char>
    decreases v, 0int, 0int,
{
    match v {
        JsonV::Null => "null"@,
        JsonV::Bool(b) => if b {
            "true"@
        } else {
            "false"@
        },
        JsonV::Num(s) => s,
        JsonV::Str(s) => seq!['"'] + escape_str(s) + seq!['"'],
        JsonV::Arr(items) => seq!['['] + items_upto(items, items.len() as int) + seq![']'],
        JsonV::Obj(ms) => seq!['{'] + members_upto(ms, ms.len() as int) + seq!['}'],
    }
}

/// The text of the first `i` items of an array (at most all of them),
/// comma-separated.
pub open spec fn items_upto(items: Seq<JsonV>, i: int) -> Seq<char>
    decreases items, 1int, i,
{
    if i <= 0 || items.len() == 0 {
        Seq::empty()
    } else {
        let j = if i > items.len() {
            items.len() as int
        } else {
            i
        };
        if j == 1 {
            json_text(items[0])
        } else {
            items_upto(items, j - 1) + seq![','] + json_text(items[j - 1])
        }
    }
}

/// The text of one object member.
pub open spec fn member_text(m: (Seq<char>, JsonV)) -> Seq<char>
    decreases m, 0int, 0int,
{
    seq!['"'] + escape_str(m.0) + seq!['"', ':'] + json_text(m.1)
}

/// The text of the first `i` members of an object (at most all of them),
/// comma-separated.
pub open spec fn members_upto(ms: Seq<(Seq<char>, JsonV)>, i: int) -> Seq<char>
    decreases ms, 1int, i,
{
    if i <= 0 || ms.len() == 0 {
        Seq::empty()
    } else {
        let j = if i > ms.len() {
            ms.len() as int
        } else {
            i
        };
        if j == 1 {
            member_text(ms[0])
        } else {
            members_upto(ms, j - 1) + seq![','] + member_text(ms[j - 1])
        }
    }
}

/// The JSON form of one cover.
pub open spec fn capa_json(c: CapaV) -> JsonV {
    JsonV::Obj(
        seq![
            ("id"@, JsonV::Str(c.id)),
            ("nome"@, JsonV::Str(c.nome)),
            ("url"@, JsonV::Str(c.url)),
        ],
    )
}

/// The JSON form of a cover list.
pub open spec fn capas_json(cs: Seq<CapaV>) -> JsonV {
    JsonV::Arr(cs.map_values(|c: CapaV| capa_json(c)))
}

/// The JSON form of the section map: one object, keys in map order.
pub open spec fn sections_json(m: Seq<SectionV>) -> JsonV {
    JsonV::Obj(m.map_values(|s: SectionV| (s.nome, capas_json(s.capas))))
}

/// The cover a JSON value stands for, if it has exactly the cover shape.
pub open spec fn capa_of_json(v: JsonV) -> Option<CapaV> {
    match v {
        JsonV::Obj(ms) => if ms.len() == 3 && ms[0].0 == "id"@ && ms[1].0 == "nome"@ && ms[2].0
            == "url"@ && ms[0].1 is Str && ms[1].1 is Str && ms[2].1 is Str {
            Some(CapaV { id: ms[0].1->Str_0, nome: ms[1].1->Str_0, url: ms[2].1->Str_0 })
        } else {
            None
        },
        _ => None,
    }
}

/// The cover list a sequence of JSON values stands for.
pub open spec fn capas_of_json_list(items: Seq<JsonV>) -> Option<Seq<CapaV>>
    decreases items.len(),
{
    if items.len() == 0 {
        Some(Seq::empty())
    } else {
        match capa_of_json(items[0]) {
            None => None,
            Some(c) => match capas_of_json_list(items.drop_first()) {
                None => None,
                Some(r) => Some(seq![c] + r),
            },
        }
    }
}

/// The section list a sequence of JSON members stands for.
pub open spec fn sections_of_members(ms: Seq<(Seq<char>, JsonV)>) -> Option<Seq<SectionV>>
    decreases ms.len(),
{
    if ms.len() == 0 {
        Some(Seq::empty())
    } else {
        match ms[0].1 {
            JsonV::Arr(items) => match capas_of_json_list(items) {
                None => None,
                Some(cs) => match sections_of_members(ms.drop_first()) {
                    None => None,
                    Some(r) => Some(seq![SectionV { nome: ms[0].0, capas: cs }] + r),
                },
            },
            _ => None,
        }
    }
}

/// The section map a JSON document stands for, if it has the published shape.
pub open spec fn sections_of_json(v: JsonV) -> Option<Seq<SectionV>> {
    match v {
        JsonV::Obj(ms) => sections_of_members(ms),
        _ => None,
    }
}

proof fn lemma_capa_round_trip(c: CapaV)
    ensures
        capa_of_json(capa_json(c)) == Some(c),
{
}

proof fn lemma_capas_round_trip(cs: Seq<CapaV>)
    ensures
        capas_of_json_list(cs.map_values(|c: CapaV| capa_json(c))) == Some(cs),
    decreases cs.len(),
{
    let f = |c: CapaV| capa_json(c);
    let items = cs.map_values(f);
    if cs.len() == 0 {
        assert(capas_of_json_list(items) == Some(Seq::<CapaV>::empty()));
        assert(Seq::<CapaV>::empty() =~= cs);
    } else {
        assert(items[0] == capa_json(cs[0]));
        lemma_capa_round_trip(cs[0]);
        assert(items.drop_first() =~= cs.drop_first().map_values(f));
        lemma_capas_round_trip(cs.drop_first());
        assert(seq![cs[0]] + cs.drop_first() =~= cs);
    }
}

proof fn lemma_sections_members_round_trip(m: Seq<SectionV>)
    ensures
        sections_of_members(m.map_values(|s: SectionV| (s.nome, capas_json(s.capas)))) == Some(m),
    decreases m.len(),
{
    let g = |s: SectionV| (s.nome, capas_json(s.capas));
    let ms = m.map_values(g);
    if m.len() == 0 {
        assert(sections_of_members(ms) == Some(Seq::<SectionV>::empty()));
        assert(Seq::<SectionV>::empty() =~= m);
    } else {
        assert(ms[0] == (m[0].nome, capas_json(m[0].capas)));
        lemma_capas_round_trip(m[0].capas);
        assert(ms.drop_first() =~= m.drop_first().map_values(g));
        lemma_sections_members_round_trip(m.drop_first());
        assert(seq![SectionV { nome: m[0].nome, capas: m[0].capas }] + m.drop_first() =~= m);
        assert(SectionV { nome: m[0].nome, capas: m[0].capas } == m[0]);
    }
}

/// Law: reading the published JSON form of a section map yields the same
/// sections: the same keys in the same order, each with the same covers.
pub proof fn lemma_sections_round_trip(m: Seq<SectionV>)
    ensures
        sections_of_json(sections_json(m)) == Some(m),
{
    lemma_sections_members_round_trip(m);
}

/// One member of a parsed JSON object. The trusted parser hands members back
/// in serde_json's map order — sorted by key, duplicates collapsed — and the
/// readers only ever look members up by key.
pub struct JsonMember {
    pub key: String,
    pub value: JsonValue,
}

/// A parsed JSON document, as the trusted parser hands it back. A number is
/// carried as its decimal text.
pub enum JsonValue {
    Null,
    Bool(bool),
    Num(String),
    Str(String),
    Arr(Vec<JsonValue>),
    Obj(Vec<JsonMember>),
}

/// The value under the first member of `ms` keyed `k`, if any.
pub open spec fn obj_get(ms: Seq<JsonMember>, k: Seq<char>) -> Option<JsonValue>
    decreases ms.len(),
{
    if ms.len() == 0 {
        None
    } else if ms[0].key@ == k {
        Some(ms[0].value)
    } else {
        obj_get(ms.drop_first(), k)
    }
}

proof fn lemma_obj_get_found(ms: Seq<JsonMember>, k: Seq<char>, p: int)
    requires
        0 <= p < ms.len(),
        ms[p].key@ == k,
        forall|j: int| 0 <= j < p ==> ms[j].key@ != k,
    ensures
        obj_get(ms, k) == Some(ms[p].value),
    decreases p,
{
    if p == 0 {
    } else {
        let rest = ms.drop_first();
        assert forall|j: int| 0 <= j < p - 1 implies rest[j].key@ != k by {
            assert(rest[j] == ms[j + 1]);
        }
        assert(rest[p - 1] == ms[p]);
        lemma_obj_get_found(rest, k, p - 1);
    }
}

proof fn lemma_obj_get_missing(ms: Seq<JsonMember>, k: Seq<char>)
    requires
        forall|j: int| 0 <= j < ms.len() ==> ms[j].key@ != k,
    ensures
        obj_get(ms, k) is None,
    decreases ms.len(),
{
    if ms.len() == 0 {
    } else {
        let rest = ms.drop_first();
        assert forall|j: int| 0 <= j < rest.len() implies rest[j].key@ != k by {
            assert(rest[j] == ms[j + 1]);
        }
        lemma_obj_get_missing(rest, k);
    }
}

/// Finds the first member keyed `k`.
pub fn get_member<'a>(ms: &'a Vec<JsonMember>, k: &str) -> (r: Option<&'a JsonValue>)
    ensures
        match r {
            Some(v) => obj_get(ms@, k@) == Some(*v),
            None => obj_get(ms@, k@) is None,
        },
{
    let n = ms.len();
    let mut i: usize = 0;
    while i < n
        invariant
            n == ms@.len(),
            i <= n,
            forall|j: int| 0 <= j < i ==> ms@[j].key@ != k@,
        decreases n - i,
    {
        if text::str_eq(ms[i].key.as_str(), k) {
            proof {
                lemma_obj_get_found(ms@, k@, i as int);
            }
            return Some(&ms[i].value);
        }
        i += 1;
    }
    proof {
        lemma_obj_get_missing(ms@, k@);
    }
    None
}

fn hex_char(n: u8) -> (r: char)
    requires
        n < 16,
    ensures
        r == hex_digit(n as int),
{
    if n < 10 {
        (n + 48) as char
    } else {
        (n + 87) as char
    }
}

/// Appends the escaped form of `s` to `out`.
pub(crate) fn push_escaped(s: &str, out: &mut Vec<char>)
    ensures
        final(out)@ == old(out)@ + escape_str(s@),
{
    let v = text::chars_of(s);
    let mut i: usize = 0;
    proof {
        assert(s@.skip(0) =~= s@);
    }
    while i < v.len()
        invariant
            v@ == s@,
            i <= v@.len(),
            old(out)@ + escape_str(s@) == out@ + escape_str(s@.skip(i as int)),
        decreases v@.len() - i,
    {
        let c = v[i];
        let ghost o0 = out@;
        proof {
            assert(s@.skip(i as int)[0] == s@[i as int]);
            assert(s@.skip(i as int).drop_first() =~= s@.skip(i + 1 as int));
        }
        if c == '"' {
            out.push('\\');
            out.push('"');
        } else if c == '\\' {
            out.push('\\');
            out.push('\\');
        } else if c == '\n' {
            out.push('\\');
            out.push('n');
        } else if c == '\r' {
            out.push('\\');
            out.push('r');
        } else if c == '\t' {
            out.push('\\');
            out.push('t');
        } else if '\u{0}' <= c && c <= '\u{1f}' {
            out.push('\\');
            out.push('u');
            out.push('0');
            out.push('0');
            let b: u32 = c as u32;
            let hi: u8 = (b / 16) as u8;
            let lo: u8 = (b % 16) as u8;
            proof {
                assert(c as int <= 31);
                assert(c as int >= 0);
                assert(b == c as int);
                assert(hi as int == (c as int) / 16);
                assert(lo as int == (c as int) % 16);
            }
            out.push(hex_char(hi));
            out.push(hex_char(lo));
            proof {
                assert(escaped_char(c) == seq![
                    '\\',
                    'u',
                    '0',
                    '0',
                    hex_digit((c as int) / 16),
                    hex_digit((c as int) % 16),
                ]);
            }
        } else {
            out.push(c);
        }
        proof {
            assert(out@ =~= o0 + escaped_char(c));
            assert(o0 + (escaped_char(c) + escape_str(s@.skip(i + 1 as int))) =~= (o0
                + escaped_char(c)) + escape_str(s@.skip(i + 1 as int)));
        }
        i += 1;
    }
    proof {
        assert(s@.skip(s@.len() as int) =~= Seq::<char>::empty());
        assert(out@ =~= old(out)@ + escape_str(s@));
    }
}

/// Appends the JSON string literal for `s` to `out`.
pub(crate) fn push_json_str(s: &str, out: &mut Vec<char>)
    ensures
        final(out)@ == old(out)@ + json_text(JsonV::Str(s@)),
{
    let ghost base = out@;
    out.push('"');
    push_escaped(s, out);
    out.push('"');
    proof {
        assert(out@ =~= base + (seq!['"'] + escape_str(s@) + seq!['"']));
    }
}

fn push_capa(c: &Capa, out: &mut Vec<char>)
    ensures
        final(out)@ == old(out)@ + json_text(capa_json(c@)),
{
    let ghost base = out@;
    let ghost ms = capa_json(c@)->Obj_0;
    proof {
        assert(ms[0] == ("id"@, JsonV::Str(c.id@)));
        assert(ms[1] == ("nome"@, JsonV::Str(c.nome@)));
        assert(ms[2] == ("url"@, JsonV::Str(c.url@)));
    }
    out.push('{');
    out.push('"');
    push_escaped("id", out);
    out.push('"');
    out.push(':');
    push_json_str(c.id.as_str(), out);
    proof {
        assert(out@ =~= base + seq!['{'] + member_text(ms[0]));
        assert(members_upto(ms, 1) == member_text(ms[0]));
    }
    out.push(',');
    out.push('"');
    push_escaped("nome", out);
    out.push('"');
    out.push(':');
    push_json_str(c.nome.as_str(), out);
    proof {
        assert(out@ =~= base + seq!['{'] + (members_upto(ms, 1) + seq![','] + member_text(ms[1])));
        assert(members_upto(ms, 2) == members_upto(ms, 1) + seq![','] + member_text(ms[1]));
    }
    out.push(',');
    out.push('"');
    push_escaped("url", out);
    out.push('"');
    out.push(':');
    push_json_str(c.url.as_str(), out);
    proof {
        assert(out@ =~= base + seq!['{'] + (members_upto(ms, 2) + seq![','] + member_text(ms[2])));
        assert(members_upto(ms, 3) == members_upto(ms, 2) + seq![','] + member_text(ms[2]));
    }
    out.push('}');
    proof {
        assert(out@ =~= base + (seq!['{'] + members_upto(ms, 3) + seq!['}']));
        assert(json_text(capa_json(c@)) == seq!['{'] + members_upto(ms, 3) + seq!['}']);
    }
}

fn push_capas(v: &Vec<Capa>, out: &mut Vec<char>)
    ensures
        final(out)@ == old(out)@ + json_text(capas_json(v.deep_view())),
{
    let ghost dv = v.deep_view();
    let ghost items = capas_json(dv)->Arr_0;
    let ghost base = out@;
    proof {
        assert(items.len() == dv.len());
    }
    out.push('[');
    let mut i: usize = 0;
    while i < v.len()
        invariant
            dv == v.deep_view(),
            items == capas_json(dv)->Arr_0,
            items.len() == dv.len(),
            i <= v@.len(),
            dv.len() == v@.len(),
            out@ == base + seq!['['] + items_upto(items, i as int),
        decreases v@.len() - i,
    {
        let ghost o0 = out@;
        if i > 0 {
            out.push(',');
        }
        push_capa(&v[i], out);
        proof {
            assert(dv[i as int] == v@[i as int]@);
            assert(items[i as int] == capa_json(dv[i as int]));
            if i == 0 {
                assert(items_upto(items, 1) == json_text(items[0]));
                assert(out@ =~= base + seq!['['] + items_upto(items, 1));
            } else {
                assert(items_upto(items, i + 1 as int) == items_upto(items, i as int) + seq![',']
                    + json_text(items[i as int]));
                assert(out@ =~= base + seq!['['] + items_upto(items, i + 1 as int));
            }
        }
        i += 1;
    }
    out.push(']');
    proof {
        assert(out@ =~= base + (seq!['['] + items_upto(items, items.len() as int) + seq![']']));
        assert(json_text(capas_json(dv)) == seq!['['] + items_upto(items, items.len() as int)
            + seq![']']);
    }
}

/// The full text of the published section artifact: one JSON object whose
/// keys are the section names in map order, each holding the section's cover
/// list.
pub fn capas_json_string(m: &Sections) -> (r: String)
    ensures
        r@ == json_text(sections_json(m@)),
{
    let ghost ms = sections_json(m@)->Obj_0;
    let mut out: Vec<char> = Vec::new();
    proof {
        assert(ms.len() == m@.len());
        assert(out@ =~= Seq::<char>::empty());
    }
    out.push('{');
    let mut i: usize = 0;
    while i < m.entries.len()
        invariant
            ms == sections_json(m@)->Obj_0,
            ms.len() == m@.len(),
            i <= m.entries@.len(),
            m@.len() == m.entries@.len(),
            out@ == seq!['{'] + members_upto(ms, i as int),
        decreases m.entries@.len() - i,
    {
        let ghost o0 = out@;
        if i > 0 {
            out.push(',');
        }
        let e = &m.entries[i];
        out.push('"');
        push_escaped(e.nome.as_str(), &mut out);
        out.push('"');
        out.push(':');
        push_capas(&e.capas, &mut out);
        proof {
            assert(m@[i as int] == m.entries@[i as int]@);
            assert(ms[i as int] == (m@[i as int].nome, capas_json(m@[i as int].capas)));
            assert(member_text(ms[i as int]) == seq!['"'] + escape_str(e.nome@) + seq!['"', ':']
                + json_text(capas_json(e.capas.deep_view())));
            if i == 0 {
                assert(members_upto(ms, 1) == member_text(ms[0]));
                assert(out@ =~= seq!['{'] + members_upto(ms, 1));
            } else {
                assert(members_upto(ms, i + 1 as int) == members_upto(ms, i as int) + seq![',']
                    + member_text(ms[i as int]));
                assert(out@ =~= seq!['{'] + members_upto(ms, i + 1 as int));
            }
        }
        i += 1;
    }
    out.push('}');
    proof {
        assert(out@ =~= seq!['{'] + members_upto(ms, ms.len() as int) + seq!['}']);
        assert(json_text(sections_json(m@)) == seq!['{'] + members_upto(ms, ms.len() as int)
            + seq!['}']);
    }
    text::string_of(&out)
}

} // verus!
