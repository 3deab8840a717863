//! The run's decision points: whether AI enrichment may happen at all, and
//! which artifacts a run writes. The section artifact is always written and
//! depends on the scraped sections alone; the digest artifact exists only
//! when enrichment was enabled and produced entries.
use vstd::prelude::*;

verus! {

use crate::classify::{desp_key, nac_key};
use crate::digest::{DigestEntry, digest_json, digest_json_string};
use crate::jsonfmt::{json_text, sections_json, capas_json_string};
use crate::sections::{CapaV, SectionV, Sections};
use crate::text;

/// The AI capability: present with its key, or absent. Every AI step — image
/// downloads and endpoint calls included — is reached only through a present
/// capability.
pub enum AiAccess {
    Absent,
    Present { api_key: String },
}

impl AiAccess {
    /// Builds the capability from an optionally configured key.
    pub fn from_key(key: Option<String>) -> (r: AiAccess)
        ensures
            match key {
                Some(k) => r matches AiAccess::Present { api_key } && api_key@ == k@,
                None => r is Absent,
            },
    {
        match key {
            Some(k) => AiAccess::Present { api_key: k },
            None => AiAccess::Absent,
        }
    }

    /// Whether AI work may happen this run: exactly when a key is present.
    pub fn enabled(&self) -> (r: bool)
        ensures
            r == (*self is Present),
    {
        match self {
            AiAccess::Present { .. } => true,
            AiAccess::Absent => false,
        }
    }

    /// The configured key, where one is present.
    pub fn key(&self) -> (r: Option<&String>)
        ensures
            match r {
                Some(k) => *self matches AiAccess::Present { api_key } && k@ == api_key@,
                None => *self is Absent,
            },
    {
        match self {
            AiAccess::Present { api_key } => Some(api_key),
            AiAccess::Absent => None,
        }
    }
}

/// The text pairs of a list of string pairs.
pub open spec fn pairs_view(s: Seq<(String, String)>) -> Seq<(Seq<char>, Seq<char>)> {
    s.map_values(|p: (String, String)| (p.0@, p.1@))
}

/// The first five covers of one section, as (image address, display name)
/// pairs.
pub open spec fn first_five_pairs(cs: Seq<CapaV>) -> Seq<(Seq<char>, Seq<char>)> {
    let k = if cs.len() > 5 {
        5int
    } else {
        cs.len() as int
    };
    cs.take(k).map_values(|c: CapaV| (c.url, c.nome))
}

/// The covers that feed the digest: from the national and the sports
/// sections, in map order, at most the first five covers of each.
pub open spec fn digest_covers_spec(m: Seq<SectionV>) -> Seq<(Seq<char>, Seq<char>)>
    decreases m.len(),
{
    if m.len() == 0 {
        Seq::empty()
    } else {
        (if m[0].nome == nac_key() || m[0].nome == desp_key() {
            first_five_pairs(m[0].capas)
        } else {
            Seq::empty()
        }) + digest_covers_spec(m.drop_first())
    }
}

/// Selects the covers that feed the digest: at most five national and five
/// sports covers, in map order, as (image address, display name) pairs.
pub fn digest_covers(m: &Sections) -> (r: Vec<(String, String)>)
    ensures
        pairs_view(r@) == digest_covers_spec(m@),
{
    let mut r: Vec<(String, String)> = Vec::new();
    let mut i: usize = 0;
    proof {
        assert(m@.skip(0) =~= m@);
        assert(pairs_view(r@) =~= Seq::<(Seq<char>, Seq<char>)>::empty());
        assert(pairs_view(r@) + digest_covers_spec(m@) =~= digest_covers_spec(m@));
    }
    while i < m.entries.len()
        invariant
            i <= m.entries@.len(),
            m@.len() == m.entries@.len(),
            digest_covers_spec(m@) == pairs_view(r@) + digest_covers_spec(m@.skip(i as int)),
        decreases m.entries@.len() - i,
    {
        let ghost suffix = m@.skip(i as int);
        proof {
            assert(suffix[0] == m@[i as int]);
            assert(m.entries@[i as int]@ == m@[i as int]);
            assert(suffix.drop_first() =~= m@.skip(i + 1 as int));
        }
        let e = &m.entries[i];
        if text::str_eq(e.nome.as_str(), "Jornais Nacionais") || text::str_eq(
            e.nome.as_str(),
            "Desporto",
        ) {
            let ghost cs = m@[i as int].capas;
            let ghost sec_pairs = first_five_pairs(cs);
            let ghost r0 = pairs_view(r@);
            let lim = if e.capas.len() > 5 {
                5
            } else {
                e.capas.len()
            };
            proof {
                assert(cs == e.capas.deep_view());
                assert(cs.len() == e.capas@.len());
                assert(sec_pairs.len() == lim);
                assert(sec_pairs.take(0) =~= Seq::<(Seq<char>, Seq<char>)>::empty());
                assert(r0 + sec_pairs.take(0) =~= r0);
            }
            let mut j: usize = 0;
            while j < lim
                invariant
                    j <= lim,
                    lim <= e.capas@.len(),
                    cs == e.capas.deep_view(),
                    cs.len() == e.capas@.len(),
                    sec_pairs == first_five_pairs(cs),
                    sec_pairs.len() == lim,
                    pairs_view(r@) == r0 + sec_pairs.take(j as int),
                decreases lim - j,
            {
                let ghost rp = pairs_view(r@);
                let c = &e.capas[j];
                r.push((c.url.clone(), c.nome.clone()));
                proof {
                    assert(cs[j as int] == e.capas@[j as int]@);
                    assert(sec_pairs[j as int] == (cs[j as int].url, cs[j as int].nome));
                    assert(pairs_view(r@) =~= rp.push((c.url@, c.nome@)));
                    assert(sec_pairs.take(j + 1 as int) =~= sec_pairs.take(j as int).push(
                        sec_pairs[j as int],
                    ));
                    assert(r0 + sec_pairs.take(j + 1 as int) =~= pairs_view(r@));
                }
                j += 1;
            }
            proof {
                assert(sec_pairs.take(lim as int) =~= sec_pairs);
                assert(digest_covers_spec(suffix) == sec_pairs + digest_covers_spec(
                    m@.skip(i + 1 as int),
                ));
                assert(r0 + (sec_pairs + digest_covers_spec(m@.skip(i + 1 as int))) =~= pairs_view(
                    r@,
                ) + digest_covers_spec(m@.skip(i + 1 as int)));
            }
        } else {
            proof {
                assert(digest_covers_spec(suffix) == Seq::<(Seq<char>, Seq<char>)>::empty()
                    + digest_covers_spec(m@.skip(i + 1 as int)));
                assert(Seq::<(Seq<char>, Seq<char>)>::empty() + digest_covers_spec(
                    m@.skip(i + 1 as int),
                ) =~= digest_covers_spec(m@.skip(i + 1 as int)));
            }
        }
        i += 1;
    }
    proof {
        assert(m@.skip(m@.len() as int) =~= Seq::<SectionV>::empty());
        assert(pairs_view(r@) + Seq::<(Seq<char>, Seq<char>)>::empty() =~= pairs_view(r@));
    }
    r
}

/// What a run writes: the section artifact always; the digest artifact only
/// when enrichment produced entries.
pub struct RunOutput {
    pub capas_text: String,
    pub digest_text: Option<String>,
}

/// Assembles the texts a run publishes. The section artifact depends on the
/// sections alone, so a failed or absent enrichment leaves it untouched; no
/// digest artifact exists without a digest, nor for an empty one.
pub fn assemble_outputs(sections: &Sections, digest: &Option<Vec<DigestEntry>>) -> (r: RunOutput)
    ensures
        r.capas_text@ == json_text(sections_json(sections@)),
        (match digest {
            Some(d) => if d.deep_view().len() > 0 {
                match r.digest_text {
                    Some(t) => t@ == json_text(digest_json(d.deep_view())),
                    None => false,
                }
            } else {
                r.digest_text is None
            },
            None => r.digest_text is None,
        }),
{
    let capas_text = capas_json_string(sections);
    let digest_text = match digest {
        Some(d) => if d.len() > 0 {
            Some(digest_json_string(d))
        } else {
            None
        },
        None => None,
    };
    RunOutput { capas_text, digest_text }
}

} // verus!
