//! The classification step: sports outlets are moved out of the national
//! section into the sports section, the sports section is ordered by a fixed
//! preference list (ties keep their original order), and the output map is
//! assembled in a fixed key order.
use vstd::prelude::*;

verus! {

use crate::sections::{Capa, CapaV, SectionV, Sections, lookup, remove_spec, insert_spec};
use crate::text;

broadcast use vstd::string::group_string_axioms;

/// The national section key.
pub open spec fn nac_key() -> Seq<char> {
    "Jornais Nacionais"@
}

/// The sports section key.
pub open spec fn desp_key() -> Seq<char> {
    "Desporto"@
}

/// The economy section key.
pub open spec fn econ_key() -> Seq<char> {
    "Economia e Gest\u{e3}o"@
}

/// A section entry, written short.
pub open spec fn sec(k: Seq<char>, c: Seq<CapaV>) -> SectionV {
    SectionV { nome: k, capas: c }
}

/// The position of a name in the fixed preference list; 3 for any name not on
/// it. Names with rank below 3 are the sports outlets that are moved out of
/// the national section.
pub open spec fn pref_rank(nome: Seq<char>) -> int {
    if nome == "A Bola"@ {
        0
    } else if nome == "Record"@ {
        1
    } else if nome == "O Jogo"@ {
        2
    } else {
        3
    }
}

/// The covers of `s` whose name has preference rank `k`, in original order.
pub open spec fn rank_filter(s: Seq<CapaV>, k: int) -> Seq<CapaV>
    decreases s.len(),
{
    if s.len() == 0 {
        Seq::empty()
    } else if pref_rank(s[0].nome) == k {
        seq![s[0]] + rank_filter(s.drop_first(), k)
    } else {
        rank_filter(s.drop_first(), k)
    }
}

/// The covers of `s` named after a sports outlet, in original order.
pub open spec fn outlet_filter(s: Seq<CapaV>) -> Seq<CapaV>
    decreases s.len(),
{
    if s.len() == 0 {
        Seq::empty()
    } else if pref_rank(s[0].nome) < 3 {
        seq![s[0]] + outlet_filter(s.drop_first())
    } else {
        outlet_filter(s.drop_first())
    }
}

/// The sports ordering: covers grouped by preference rank, best rank first,
/// original order kept inside each rank.
pub open spec fn sports_order(s: Seq<CapaV>) -> Seq<CapaV> {
    rank_filter(s, 0) + rank_filter(s, 1) + rank_filter(s, 2) + rank_filter(s, 3)
}

/// The value a section map carries for `k`, or an empty list.
pub open spec fn opt_or_empty(o: Option<Seq<CapaV>>) -> Seq<CapaV> {
    match o {
        Some(v) => v,
        None => Seq::empty(),
    }
}

/// What classification produces: the national section without its sports
/// outlets, the sports section extended by them and preference-ordered, and
/// the economy section if one was scraped, in that fixed key order.
pub open spec fn reorder_spec(m: Seq<SectionV>) -> Seq<SectionV> {
    let nac = opt_or_empty(lookup(m, nac_key()));
    let m1 = remove_spec(m, nac_key());
    let desp = opt_or_empty(lookup(m1, desp_key()));
    let m2 = remove_spec(m1, desp_key());
    let sports = sports_order(desp + outlet_filter(nac));
    let base = seq![sec(nac_key(), rank_filter(nac, 3)), sec(desp_key(), sports)];
    match lookup(m2, econ_key()) {
        Some(e) => base.push(sec(econ_key(), e)),
        None => base,
    }
}

fn rank_of(nome: &str) -> (r: u8)
    ensures
        r as int == pref_rank(nome@),
{
    if text::str_eq(nome, "A Bola") {
        0
    } else if text::str_eq(nome, "Record") {
        1
    } else if text::str_eq(nome, "O Jogo") {
        2
    } else {
        3
    }
}

/// Splits the national list into covers that stay and sports outlets that
/// move, each side keeping its original order.
fn partition_national(v: Vec<Capa>) -> (r: (Vec<Capa>, Vec<Capa>))
    ensures
        r.0.deep_view() == rank_filter(v.deep_view(), 3),
        r.1.deep_view() == outlet_filter(v.deep_view()),
{
    let ghost dv0 = v.deep_view();
    let mut rem = v;
    let mut rest: Vec<Capa> = Vec::new();
    let mut moved: Vec<Capa> = Vec::new();
    proof {
        assert(rest.deep_view() =~= Seq::<CapaV>::empty());
        assert(moved.deep_view() =~= Seq::<CapaV>::empty());
        assert(rest.deep_view() + rank_filter(rem.deep_view(), 3) =~= rank_filter(
            rem.deep_view(),
            3,
        ));
        assert(moved.deep_view() + outlet_filter(rem.deep_view()) =~= outlet_filter(
            rem.deep_view(),
        ));
    }
    while rem.len() > 0
        invariant
            rank_filter(dv0, 3) == rest.deep_view() + rank_filter(rem.deep_view(), 3),
            outlet_filter(dv0) == moved.deep_view() + outlet_filter(rem.deep_view()),
        decreases rem@.len(),
    {
        let ghost dpre = rem.deep_view();
        let ghost rest0 = rest.deep_view();
        let ghost moved0 = moved.deep_view();
        let c = rem.remove(0);
        proof {
            assert(dpre[0] == c@);
            assert(rem.deep_view() =~= dpre.drop_first());
        }
        let rk = rank_of(c.nome.as_str());
        if rk == 3 {
            rest.push(c);
            proof {
                assert(rest.deep_view() =~= rest0.push(c@));
                assert(rank_filter(dpre, 3) == seq![c@] + rank_filter(dpre.drop_first(), 3));
                assert(rest0 + rank_filter(dpre, 3) =~= rest0.push(c@) + rank_filter(
                    dpre.drop_first(),
                    3,
                ));
                assert(outlet_filter(dpre) == outlet_filter(dpre.drop_first()));
            }
        } else {
            moved.push(c);
            proof {
                assert(moved.deep_view() =~= moved0.push(c@));
                assert(outlet_filter(dpre) == seq![c@] + outlet_filter(dpre.drop_first()));
                assert(moved0 + outlet_filter(dpre) =~= moved0.push(c@) + outlet_filter(
                    dpre.drop_first(),
                ));
                assert(rank_filter(dpre, 3) == rank_filter(dpre.drop_first(), 3));
            }
        }
    }
    proof {
        assert(rem.deep_view() =~= Seq::<CapaV>::empty());
        assert(rest.deep_view() + rank_filter(Seq::<CapaV>::empty(), 3) =~= rest.deep_view());
        assert(moved.deep_view() + outlet_filter(Seq::<CapaV>::empty()) =~= moved.deep_view());
    }
    (rest, moved)
}

/// Orders a sports list by the preference ranking, keeping the original order
/// among covers of equal rank.
fn preference_sort(v: Vec<Capa>) -> (r: Vec<Capa>)
    ensures
        r.deep_view() == sports_order(v.deep_view()),
{
    let ghost dv0 = v.deep_view();
    let mut rem = v;
    let mut b0: Vec<Capa> = Vec::new();
    let mut b1: Vec<Capa> = Vec::new();
    let mut b2: Vec<Capa> = Vec::new();
    let mut b3: Vec<Capa> = Vec::new();
    proof {
        assert(b0.deep_view() =~= Seq::<CapaV>::empty());
        assert(b1.deep_view() =~= Seq::<CapaV>::empty());
        assert(b2.deep_view() =~= Seq::<CapaV>::empty());
        assert(b3.deep_view() =~= Seq::<CapaV>::empty());
        assert(b0.deep_view() + rank_filter(rem.deep_view(), 0) =~= rank_filter(
            rem.deep_view(),
            0,
        ));
        assert(b1.deep_view() + rank_filter(rem.deep_view(), 1) =~= rank_filter(
            rem.deep_view(),
            1,
        ));
        assert(b2.deep_view() + rank_filter(rem.deep_view(), 2) =~= rank_filter(
            rem.deep_view(),
            2,
        ));
        assert(b3.deep_view() + rank_filter(rem.deep_view(), 3) =~= rank_filter(
            rem.deep_view(),
            3,
        ));
    }
    while rem.len() > 0
        invariant
            rank_filter(dv0, 0) == b0.deep_view() + rank_filter(rem.deep_view(), 0),
            rank_filter(dv0, 1) == b1.deep_view() + rank_filter(rem.deep_view(), 1),
            rank_filter(dv0, 2) == b2.deep_view() + rank_filter(rem.deep_view(), 2),
            rank_filter(dv0, 3) == b3.deep_view() + rank_filter(rem.deep_view(), 3),
        decreases rem@.len(),
    {
        let ghost dpre = rem.deep_view();
        let ghost a0 = b0.deep_view();
        let ghost a1 = b1.deep_view();
        let ghost a2 = b2.deep_view();
        let ghost a3 = b3.deep_view();
        let c = rem.remove(0);
        proof {
            assert(dpre[0] == c@);
            assert(rem.deep_view() =~= dpre.drop_first());
        }
        let rk = rank_of(c.nome.as_str());
        if rk == 0 {
            b0.push(c);
            proof {
                assert(b0.deep_view() =~= a0.push(c@));
                assert(a0 + rank_filter(dpre, 0) =~= a0.push(c@) + rank_filter(
                    dpre.drop_first(),
                    0,
                ));
            }
        } else if rk == 1 {
            b1.push(c);
            proof {
                assert(b1.deep_view() =~= a1.push(c@));
                assert(a1 + rank_filter(dpre, 1) =~= a1.push(c@) + rank_filter(
                    dpre.drop_first(),
                    1,
                ));
            }
        } else if rk == 2 {
            b2.push(c);
            proof {
                assert(b2.deep_view() =~= a2.push(c@));
                assert(a2 + rank_filter(dpre, 2) =~= a2.push(c@) + rank_filter(
                    dpre.drop_first(),
                    2,
                ));
            }
        } else {
            b3.push(c);
            proof {
                assert(b3.deep_view() =~= a3.push(c@));
                assert(a3 + rank_filter(dpre, 3) =~= a3.push(c@) + rank_filter(
                    dpre.drop_first(),
                    3,
                ));
            }
        }
    }
    proof {
        assert(rem.deep_view() =~= Seq::<CapaV>::empty());
        assert(b0.deep_view() + rank_filter(Seq::<CapaV>::empty(), 0) =~= b0.deep_view());
        assert(b1.deep_view() + rank_filter(Seq::<CapaV>::empty(), 1) =~= b1.deep_view());
        assert(b2.deep_view() + rank_filter(Seq::<CapaV>::empty(), 2) =~= b2.deep_view());
        assert(b3.deep_view() + rank_filter(Seq::<CapaV>::empty(), 3) =~= b3.deep_view());
    }
    let ghost f0 = b0.deep_view();
    let ghost f1 = b1.deep_view();
    let ghost f2 = b2.deep_view();
    let ghost f3 = b3.deep_view();
    let mut out = b0;
    out.append(&mut b1);
    out.append(&mut b2);
    out.append(&mut b3);
    proof {
        assert(out.deep_view() =~= f0 + f1 + f2 + f3);
    }
    out
}

/// Classifies and reorders the scraped sections: sports outlets leave the
/// national list for the sports list, the sports list takes the fixed
/// preference order with ties in original order, and the result holds the
/// national, sports, and (when present) economy sections, in that order.
pub fn reorder(sections: Sections) -> (r: Sections)
    ensures
        r@ == reorder_spec(sections@),
{
    let mut m = sections;
    let nacionais = match m.remove("Jornais Nacionais") {
        Some(v) => v,
        None => Vec::new(),
    };
    let desporto = match m.remove("Desporto") {
        Some(v) => v,
        None => Vec::new(),
    };
    proof {
        assert(nacionais.deep_view() =~= opt_or_empty(lookup(sections@, nac_key())));
        assert(desporto.deep_view() =~= opt_or_empty(
            lookup(remove_spec(sections@, nac_key()), desp_key()),
        ));
    }
    let (rest, moved) = partition_national(nacionais);
    let mut full = desporto;
    let mut moved = moved;
    let ghost fdesp = full.deep_view();
    let ghost fmoved = moved.deep_view();
    full.append(&mut moved);
    proof {
        assert(full.deep_view() =~= fdesp + fmoved);
    }
    let sports = preference_sort(full);
    let ghost m0 = sections@;
    let ghost nk = nac_key();
    let ghost dk = desp_key();
    let ghost ek = econ_key();
    let ghost rv = rest.deep_view();
    let ghost sv = sports.deep_view();
    let mut out = Sections::new();
    out.insert("Jornais Nacionais".to_owned(), rest);
    out.insert("Desporto".to_owned(), sports);
    proof {
        reveal_strlit("Jornais Nacionais");
        reveal_strlit("Desporto");
        reveal_strlit("Economia e Gest\u{e3}o");
        assert(nk.len() == 17);
        assert(dk.len() == 8);
        assert(ek.len() == 17);
        assert(ek[0] == 'E');
        assert(nk[0] == 'J');
        assert(nk != dk);
        assert(ek != dk);
        assert(ek != nk);
        assert(insert_spec(Seq::<SectionV>::empty(), nk, rv) == seq![sec(nk, rv)]);
        assert(out@ == insert_spec(seq![sec(nk, rv)], dk, sv));
        assert(seq![sec(nk, rv)][0] == sec(nk, rv));
        assert(seq![sec(nk, rv)].drop_first() =~= Seq::<SectionV>::empty());
        assert(insert_spec(Seq::<SectionV>::empty(), dk, sv) == seq![sec(dk, sv)]);
        assert(out@ =~= seq![sec(nk, rv), sec(dk, sv)]);
        assert(sv == sports_order(
            opt_or_empty(lookup(remove_spec(m0, nk), dk)) + outlet_filter(
                opt_or_empty(lookup(m0, nk)),
            ),
        ));
        assert(rv == rank_filter(opt_or_empty(lookup(m0, nk)), 3));
    }
    let ghost out2 = out@;
    match m.remove("Economia e Gest\u{e3}o") {
        Some(e) => {
            let ghost ev = e.deep_view();
            out.insert("Economia e Gest\u{e3}o".to_owned(), e);
            proof {
                assert(lookup(remove_spec(remove_spec(m0, nk), dk), ek) == Some(ev));
                assert(out@ == insert_spec(out2, ek, ev));
                assert(out2[0] == sec(nk, rv));
                assert(out2.drop_first() =~= seq![sec(dk, sv)]);
                assert(insert_spec(out2, ek, ev) == seq![out2[0]] + insert_spec(
                    seq![sec(dk, sv)],
                    ek,
                    ev,
                ));
                assert(seq![sec(dk, sv)][0] == sec(dk, sv));
                assert(seq![sec(dk, sv)].drop_first() =~= Seq::<SectionV>::empty());
                assert(insert_spec(seq![sec(dk, sv)], ek, ev) == seq![sec(dk, sv)] + insert_spec(
                    Seq::<SectionV>::empty(),
                    ek,
                    ev,
                ));
                assert(insert_spec(Seq::<SectionV>::empty(), ek, ev) == seq![sec(ek, ev)]);
                assert(out@ =~= seq![sec(nk, rv), sec(dk, sv)].push(sec(ek, ev)));
                assert(out@ =~= reorder_spec(m0));
            }
            out
        },
        None => {
            proof {
                assert(lookup(remove_spec(remove_spec(m0, nk), dk), ek) is None);
                assert(out@ =~= reorder_spec(m0));
            }
            out
        },
    }
}

/// Law: preference ordering is a permutation that preserves the original
/// relative order inside every rank; the covers of rank `k` come out exactly
/// as they went in.
pub proof fn lemma_sports_order_ties(s: Seq<CapaV>, k: int)
    requires
        0 <= k <= 3,
    ensures
        rank_filter(sports_order(s), k) == rank_filter(s, k),
{
    lemma_rank_filter_add(rank_filter(s, 0) + rank_filter(s, 1) + rank_filter(s, 2), rank_filter(s, 3), k);
    lemma_rank_filter_add(rank_filter(s, 0) + rank_filter(s, 1), rank_filter(s, 2), k);
    lemma_rank_filter_add(rank_filter(s, 0), rank_filter(s, 1), k);
    lemma_rank_filter_ranked(s, 0);
    lemma_rank_filter_ranked(s, 1);
    lemma_rank_filter_ranked(s, 2);
    lemma_rank_filter_ranked(s, 3);
    lemma_rank_filter_of_ranked(rank_filter(s, 0), 0, k);
    lemma_rank_filter_of_ranked(rank_filter(s, 1), 1, k);
    lemma_rank_filter_of_ranked(rank_filter(s, 2), 2, k);
    lemma_rank_filter_of_ranked(rank_filter(s, 3), 3, k);
    if k == 0 {
        assert(rank_filter(sports_order(s), k) =~= rank_filter(s, k));
    } else if k == 1 {
        assert(rank_filter(sports_order(s), k) =~= rank_filter(s, k));
    } else if k == 2 {
        assert(rank_filter(sports_order(s), k) =~= rank_filter(s, k));
    } else {
        assert(rank_filter(sports_order(s), k) =~= rank_filter(s, k));
    }
}

proof fn lemma_rank_filter_add(a: Seq<CapaV>, b: Seq<CapaV>, k: int)
    ensures
        rank_filter(a + b, k) == rank_filter(a, k) + rank_filter(b, k),
    decreases a.len(),
{
    if a.len() == 0 {
        assert(a + b =~= b);
        assert(Seq::<CapaV>::empty() + rank_filter(b, k) =~= rank_filter(b, k));
        assert(rank_filter(a, k) == Seq::<CapaV>::empty());
    } else {
        assert((a + b)[0] == a[0]);
        assert((a + b).drop_first() =~= a.drop_first() + b);
        lemma_rank_filter_add(a.drop_first(), b, k);
        if pref_rank(a[0].nome) == k {
            assert(rank_filter(a + b, k) == seq![a[0]] + (rank_filter(a.drop_first(), k)
                + rank_filter(b, k)));
            assert(seq![a[0]] + (rank_filter(a.drop_first(), k) + rank_filter(b, k)) =~= (seq![
                a[0],
            ] + rank_filter(a.drop_first(), k)) + rank_filter(b, k));
        }
    }
}

proof fn lemma_rank_filter_ranked(s: Seq<CapaV>, k: int)
    ensures
        forall|i: int|
            0 <= i < rank_filter(s, k).len() ==> pref_rank(#[trigger] rank_filter(s, k)[i].nome)
                == k,
    decreases s.len(),
{
    if s.len() == 0 {
    } else {
        lemma_rank_filter_ranked(s.drop_first(), k);
        if pref_rank(s[0].nome) != k {
            let w = rank_filter(s, k);
            assert(w == rank_filter(s.drop_first(), k));
            assert forall|i: int| 0 <= i < w.len() implies pref_rank(#[trigger] w[i].nome)
                == k by {
                assert(w[i] == rank_filter(s.drop_first(), k)[i]);
            }
        } else {
            let w = rank_filter(s, k);
            assert(w == seq![s[0]] + rank_filter(s.drop_first(), k));
            assert forall|i: int| 0 <= i < w.len() implies pref_rank(#[trigger] w[i].nome)
                == k by {
                if i == 0 {
                    assert(w[0] == s[0]);
                } else {
                    assert(w[i] == rank_filter(s.drop_first(), k)[i - 1]);
                }
            }
        }
    }
}

proof fn lemma_rank_filter_of_ranked(s: Seq<CapaV>, j: int, k: int)
    requires
        forall|i: int| 0 <= i < s.len() ==> pref_rank(#[trigger] s[i].nome) == j,
    ensures
        rank_filter(s, k) == if j == k {
            s
        } else {
            Seq::<CapaV>::empty()
        },
    decreases s.len(),
{
    if s.len() == 0 {
        if j == k {
            assert(rank_filter(s, k) =~= s);
        }
    } else {
        assert(pref_rank(s[0].nome) == j);
        assert forall|i: int| 0 <= i < s.drop_first().len() implies pref_rank(
            #[trigger] s.drop_first()[i].nome,
        ) == j by {
            assert(s.drop_first()[i] == s[i + 1]);
        }
        lemma_rank_filter_of_ranked(s.drop_first(), j, k);
        if j == k {
            assert(rank_filter(s, k) == seq![s[0]] + s.drop_first());
            assert(seq![s[0]] + s.drop_first() =~= s);
        }
    }
}

proof fn lemma_rank_filter_one(c: CapaV, k: int)
    ensures
        rank_filter(seq![c], k) == if pref_rank(c.nome) == k {
            seq![c]
        } else {
            Seq::<CapaV>::empty()
        },
{
    assert(seq![c][0] == c);
    assert(seq![c].drop_first() =~= Seq::<CapaV>::empty());
    assert(rank_filter(Seq::<CapaV>::empty(), k) == Seq::<CapaV>::empty());
    if pref_rank(c.nome) == k {
        assert(seq![c] + Seq::<CapaV>::empty() =~= seq![c]);
    }
}

proof fn lemma_outlet_filter_one(c: CapaV)
    ensures
        outlet_filter(seq![c]) == if pref_rank(c.nome) < 3 {
            seq![c]
        } else {
            Seq::<CapaV>::empty()
        },
{
    assert(seq![c][0] == c);
    assert(seq![c].drop_first() =~= Seq::<CapaV>::empty());
    assert(outlet_filter(Seq::<CapaV>::empty()) == Seq::<CapaV>::empty());
    if pref_rank(c.nome) < 3 {
        assert(seq![c] + Seq::<CapaV>::empty() =~= seq![c]);
    }
}

proof fn lemma_outlet_filter_add(a: Seq<CapaV>, b: Seq<CapaV>)
    ensures
        outlet_filter(a + b) == outlet_filter(a) + outlet_filter(b),
    decreases a.len(),
{
    if a.len() == 0 {
        assert(a + b =~= b);
        assert(Seq::<CapaV>::empty() + outlet_filter(b) =~= outlet_filter(b));
        assert(outlet_filter(a) == Seq::<CapaV>::empty());
    } else {
        assert((a + b)[0] == a[0]);
        assert((a + b).drop_first() =~= a.drop_first() + b);
        lemma_outlet_filter_add(a.drop_first(), b);
        if pref_rank(a[0].nome) < 3 {
            assert(outlet_filter(a + b) == seq![a[0]] + (outlet_filter(a.drop_first())
                + outlet_filter(b)));
            assert(seq![a[0]] + (outlet_filter(a.drop_first()) + outlet_filter(b)) =~= (seq![
                a[0],
            ] + outlet_filter(a.drop_first())) + outlet_filter(b));
        }
    }
}

/// Law: with a national list of `a`, an outlet `b`, and `c`, and a sports
/// list of `d`, classification leaves `a` and `c` as the national section, in
/// order, and the sports section is `d` then `b`, preference-ordered.
pub proof fn lemma_reorder_moves_outlets(a: CapaV, b: CapaV, c: CapaV, d: CapaV)
    requires
        pref_rank(a.nome) == 3,
        pref_rank(b.nome) < 3,
        pref_rank(c.nome) == 3,
    ensures
        reorder_spec(seq![sec(nac_key(), seq![a, b, c]), sec(desp_key(), seq![d])]) == seq![
            sec(nac_key(), seq![a, c]),
            sec(desp_key(), sports_order(seq![d, b])),
        ],
{
    reveal_strlit("Jornais Nacionais");
    reveal_strlit("Desporto");
    reveal_strlit("Economia e Gest\u{e3}o");
    assert(nac_key().len() == 17);
    assert(desp_key().len() == 8);
    assert(econ_key().len() == 17);
    assert(econ_key()[0] == 'E');
    assert(nac_key()[0] == 'J');
    assert(nac_key() != desp_key());
    assert(econ_key() != desp_key());
    assert(econ_key() != nac_key());
    let m = seq![sec(nac_key(), seq![a, b, c]), sec(desp_key(), seq![d])];
    assert(m[0] == sec(nac_key(), seq![a, b, c]));
    assert(lookup(m, nac_key()) == Some(seq![a, b, c]));
    let m1 = remove_spec(m, nac_key());
    assert(m1 =~= seq![sec(desp_key(), seq![d])]);
    assert(m1[0] == sec(desp_key(), seq![d]));
    assert(lookup(m1, desp_key()) == Some(seq![d]));
    let m2 = remove_spec(m1, desp_key());
    assert(m2 =~= Seq::<SectionV>::empty());
    assert(lookup(m2, econ_key()) is None);
    let nac = seq![a, b, c];
    assert(nac =~= seq![a] + (seq![b] + seq![c]));
    lemma_rank_filter_add(seq![a], seq![b] + seq![c], 3);
    lemma_rank_filter_add(seq![b], seq![c], 3);
    lemma_rank_filter_one(a, 3);
    lemma_rank_filter_one(b, 3);
    lemma_rank_filter_one(c, 3);
    assert(rank_filter(nac, 3) =~= seq![a, c]);
    lemma_outlet_filter_add(seq![a], seq![b] + seq![c]);
    lemma_outlet_filter_add(seq![b], seq![c]);
    lemma_outlet_filter_one(a);
    lemma_outlet_filter_one(b);
    lemma_outlet_filter_one(c);
    assert(outlet_filter(nac) =~= seq![b]);
    assert(seq![d] + outlet_filter(nac) =~= seq![d, b]);
    assert(reorder_spec(m) =~= seq![
        sec(nac_key(), seq![a, c]),
        sec(desp_key(), sports_order(seq![d, b])),
    ]);
}

/// Law: a sports list holding Record, then A Bola, then one cover off the
/// preference list comes out as A Bola, Record, then that cover.
pub proof fn lemma_preference_scenario(x: CapaV, y: CapaV, z: CapaV)
    requires
        x.nome == "Record"@,
        y.nome == "A Bola"@,
        pref_rank(z.nome) == 3,
    ensures
        sports_order(seq![x, y, z]) == seq![y, x, z],
{
    reveal_strlit("Record");
    reveal_strlit("A Bola");
    reveal_strlit("O Jogo");
    assert("Record"@[0] == 'R');
    assert("A Bola"@[0] == 'A');
    assert("O Jogo"@[0] == 'O');
    assert(pref_rank(x.nome) == 1);
    assert(pref_rank(y.nome) == 0);
    let s = seq![x, y, z];
    assert(s =~= seq![x] + (seq![y] + seq![z]));
    lemma_rank_filter_add(seq![x], seq![y] + seq![z], 0);
    lemma_rank_filter_add(seq![x], seq![y] + seq![z], 1);
    lemma_rank_filter_add(seq![x], seq![y] + seq![z], 2);
    lemma_rank_filter_add(seq![x], seq![y] + seq![z], 3);
    lemma_rank_filter_add(seq![y], seq![z], 0);
    lemma_rank_filter_add(seq![y], seq![z], 1);
    lemma_rank_filter_add(seq![y], seq![z], 2);
    lemma_rank_filter_add(seq![y], seq![z], 3);
    lemma_rank_filter_one(x, 0);
    lemma_rank_filter_one(x, 1);
    lemma_rank_filter_one(x, 2);
    lemma_rank_filter_one(x, 3);
    lemma_rank_filter_one(y, 0);
    lemma_rank_filter_one(y, 1);
    lemma_rank_filter_one(y, 2);
    lemma_rank_filter_one(y, 3);
    lemma_rank_filter_one(z, 0);
    lemma_rank_filter_one(z, 1);
    lemma_rank_filter_one(z, 2);
    lemma_rank_filter_one(z, 3);
    assert(rank_filter(s, 0) =~= seq![y]);
    assert(rank_filter(s, 1) =~= seq![x]);
    assert(rank_filter(s, 2) =~= Seq::<CapaV>::empty());
    assert(rank_filter(s, 3) =~= seq![z]);
    assert(sports_order(s) =~= seq![y, x, z]);
}

} // verus!
