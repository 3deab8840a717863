//! Covers and sections: the insertion-ordered association list that the
//! pipeline publishes, and the classification step that moves sports outlets
//! out of the national section and orders the sports section by a fixed
//! preference list.
use vstd::prelude::*;

verus! {

use crate::text;

/// A scraped newspaper cover: stable identifier, display name, image URL.
pub struct Capa {
    pub id: String,
    pub nome: String,
    pub url: String,
}

/// The mathematical value of a cover: its three texts.
pub ghost struct CapaV {
    pub id: Seq<char>,
    pub nome: Seq<char>,
    pub url: Seq<char>,
}

impl View for Capa {
    type V = CapaV;

    open spec fn view(&self) -> CapaV {
        CapaV { id: self.id@, nome: self.nome@, url: self.url@ }
    }
}

impl DeepView for Capa {
    type V = CapaV;

    open spec fn deep_view(&self) -> CapaV {
        self@
    }
}

/// One named section with its covers, in display order.
pub struct Section {
    pub nome: String,
    pub capas: Vec<Capa>,
}

/// The mathematical value of a section: its key and its cover values.
pub ghost struct SectionV {
    pub nome: Seq<char>,
    pub capas: Seq<CapaV>,
}

impl View for Section {
    type V = SectionV;

    open spec fn view(&self) -> SectionV {
        SectionV { nome: self.nome@, capas: self.capas.deep_view() }
    }
}

impl DeepView for Section {
    type V = SectionV;

    open spec fn deep_view(&self) -> SectionV {
        self@
    }
}

/// The section map: an association list that keeps insertion order.
pub struct Sections {
    pub entries: Vec<Section>,
}

impl View for Sections {
    type V = Seq<SectionV>;

    open spec fn view(&self) -> Seq<SectionV> {
        self.entries.deep_view()
    }
}

/// The covers under the first entry keyed `k`, if any.
pub open spec fn lookup(m: Seq<SectionV>, k: Seq<char>) -> Option<Seq<CapaV>>
    decreases m.len(),
{
    if m.len() == 0 {
        None
    } else if m[0].nome == k {
        Some(m[0].capas)
    } else {
        lookup(m.drop_first(), k)
    }
}

/// `m` with the value under `k` replaced in place, or a new entry at the end.
pub open spec fn insert_spec(m: Seq<SectionV>, k: Seq<char>, v: Seq<CapaV>) -> Seq<SectionV>
    decreases m.len(),
{
    if m.len() == 0 {
        seq![SectionV { nome: k, capas: v }]
    } else if m[0].nome == k {
        seq![SectionV { nome: k, capas: v }] + m.drop_first()
    } else {
        seq![m[0]] + insert_spec(m.drop_first(), k, v)
    }
}

/// `m` without its first entry keyed `k`.
pub open spec fn remove_spec(m: Seq<SectionV>, k: Seq<char>) -> Seq<SectionV>
    decreases m.len(),
{
    if m.len() == 0 {
        m
    } else if m[0].nome == k {
        m.drop_first()
    } else {
        seq![m[0]] + remove_spec(m.drop_first(), k)
    }
}

proof fn lemma_key_found(m: Seq<SectionV>, k: Seq<char>, p: int)
    requires
        0 <= p < m.len(),
        m[p].nome == k,
        forall|j: int| 0 <= j < p ==> m[j].nome != k,
    ensures
        lookup(m, k) == Some(m[p].capas),
        remove_spec(m, k) == m.remove(p),
    decreases p,
{
    if p == 0 {
        assert(m.drop_first() =~= m.remove(0));
    } else {
        assert(m[0].nome != k);
        let rest = m.drop_first();
        assert forall|j: int| 0 <= j < p - 1 implies rest[j].nome != k by {
            assert(rest[j] == m[j + 1]);
        }
        assert(rest[p - 1] == m[p]);
        lemma_key_found(rest, k, p - 1);
        assert(seq![m[0]] + rest.remove(p - 1) =~= m.remove(p));
        assert(seq![m[0]] + rest =~= m);
    }
}

proof fn lemma_key_missing(m: Seq<SectionV>, k: Seq<char>)
    requires
        forall|j: int| 0 <= j < m.len() ==> m[j].nome != k,
    ensures
        lookup(m, k) is None,
        remove_spec(m, k) == m,
    decreases m.len(),
{
    if m.len() == 0 {
    } else {
        let rest = m.drop_first();
        assert forall|j: int| 0 <= j < rest.len() implies rest[j].nome != k by {
            assert(rest[j] == m[j + 1]);
        }
        lemma_key_missing(rest, k);
        assert(seq![m[0]] + rest =~= m);
    }
}

proof fn lemma_insert_appends(m: Seq<SectionV>, k: Seq<char>, v: Seq<CapaV>)
    requires
        forall|j: int| 0 <= j < m.len() ==> m[j].nome != k,
    ensures
        insert_spec(m, k, v) == m.push(SectionV { nome: k, capas: v }),
    decreases m.len(),
{
    if m.len() == 0 {
        assert(insert_spec(m, k, v) =~= m.push(SectionV { nome: k, capas: v }));
    } else {
        let rest = m.drop_first();
        assert forall|j: int| 0 <= j < rest.len() implies rest[j].nome != k by {
            assert(rest[j] == m[j + 1]);
        }
        lemma_insert_appends(rest, k, v);
        assert(seq![m[0]] + rest.push(SectionV { nome: k, capas: v }) =~= m.push(
            SectionV { nome: k, capas: v },
        ));
    }
}

proof fn lemma_insert_replaces(m: Seq<SectionV>, k: Seq<char>, v: Seq<CapaV>, p: int)
    requires
        0 <= p < m.len(),
        m[p].nome == k,
        forall|j: int| 0 <= j < p ==> m[j].nome != k,
    ensures
        insert_spec(m, k, v) == m.update(p, SectionV { nome: k, capas: v }),
    decreases p,
{
    if p == 0 {
        assert(seq![SectionV { nome: k, capas: v }] + m.drop_first() =~= m.update(
            0,
            SectionV { nome: k, capas: v },
        ));
    } else {
        assert(m[0].nome != k);
        let rest = m.drop_first();
        assert forall|j: int| 0 <= j < p - 1 implies rest[j].nome != k by {
            assert(rest[j] == m[j + 1]);
        }
        assert(rest[p - 1] == m[p]);
        lemma_insert_replaces(rest, k, v, p - 1);
        assert(seq![m[0]] + rest.update(p - 1, SectionV { nome: k, capas: v }) =~= m.update(
            p,
            SectionV { nome: k, capas: v },
        ));
    }
}

impl Sections {
    /// An empty section map.
    pub fn new() -> (r: Sections)
        ensures
            r@ == Seq::<SectionV>::empty(),
    {
        let r = Sections { entries: Vec::new() };
        proof {
            assert(r@ =~= Seq::<SectionV>::empty());
        }
        r
    }

    /// Replaces the covers under `nome` in place, or appends a new entry.
    pub fn insert(&mut self, nome: String, capas: Vec<Capa>)
        ensures
            final(self)@ == insert_spec(old(self)@, nome@, capas.deep_view()),
    {
        let n = self.entries.len();
        let mut i: usize = 0;
        while i < n
            invariant
                *self == *old(self),
                n == self.entries@.len(),
                i <= n,
                forall|j: int| 0 <= j < i ==> self@[j].nome != nome@,
            decreases n - i,
        {
            if text::str_eq(self.entries[i].nome.as_str(), nome.as_str()) {
                let ghost m0 = old(self)@;
                let ghost knome = nome@;
                let ghost kcapas = capas.deep_view();
                proof {
                    assert(m0[i as int].nome == knome);
                }
                self.entries.remove(i);
                self.entries.insert(i, Section { nome, capas });
                proof {
                    let e = SectionV { nome: knome, capas: kcapas };
                    assert forall|j: int| 0 <= j < self@.len() implies self@[j] == m0.update(
                        i as int,
                        e,
                    )[j] by {
                        assert(self.entries@[j].deep_view() == self@[j]);
                    }
                    assert(self@ =~= m0.update(i as int, e));
                    lemma_insert_replaces(m0, knome, kcapas, i as int);
                }
                return ;
            }
            i += 1;
        }
        let ghost m0 = old(self)@;
        let ghost knome = nome@;
        let ghost kcapas = capas.deep_view();
        self.entries.push(Section { nome, capas });
        proof {
            assert(self@ =~= m0.push(SectionV { nome: knome, capas: kcapas }));
            lemma_insert_appends(m0, knome, kcapas);
        }
    }

    /// Removes and returns the covers under `nome`, shifting later entries up.
    pub fn remove(&mut self, nome: &str) -> (r: Option<Vec<Capa>>)
        ensures
            final(self)@ == remove_spec(old(self)@, nome@),
            match r {
                Some(v) => lookup(old(self)@, nome@) == Some(v.deep_view()),
                None => lookup(old(self)@, nome@) is None,
            },
    {
        let n = self.entries.len();
        let mut i: usize = 0;
        while i < n
            invariant
                *self == *old(self),
                n == self.entries@.len(),
                i <= n,
                forall|j: int| 0 <= j < i ==> self@[j].nome != nome@,
            decreases n - i,
        {
            if text::str_eq(self.entries[i].nome.as_str(), nome) {
                proof {
                    lemma_key_found(self@, nome@, i as int);
                }
                let ghost m0 = self@;
                let s = self.entries.remove(i);
                proof {
                    assert(self@ =~= m0.remove(i as int));
                }
                return Some(s.capas);
            }
            i += 1;
        }
        proof {
            lemma_key_missing(self@, nome@);
        }
        None
    }

    /// How many sections the map holds.
    pub fn len(&self) -> (r: usize)
        ensures
            r == self@.len(),
    {
        self.entries.len()
    }
}

} // verus!
