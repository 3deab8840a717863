//! Slug derivation: a display name is decomposed (Unicode NFKD), reduced to
//! ASCII, lower-cased, and its alphanumeric runs are joined by single dashes.
//! The result is canonical: no leading, trailing or doubled dash, and running
//! the derivation again leaves it unchanged.
use unicode_normalization::UnicodeNormalization;
use vstd::prelude::*;

verus! {

use crate::text;

/// The compatibility decomposition (NFKD) of `s`, as unicode-normalization
/// computes it; a function of the characters alone.
pub uninterp spec fn nfkd_of(s: Seq<char>) -> Seq<char>;

/// True when every character of `s` is ASCII.
pub open spec fn all_ascii(s: Seq<char>) -> bool {
    forall|i: int| 0 <= i < s.len() ==> (s[i] as int) < 128
}

/// Relies on unicode-normalization's `str::nfkd`: the decomposition depends on
/// the characters alone, and (per Unicode Standard Annex #15) text made only of
/// ASCII characters is unaffected by every normalization form.
#[verifier::external_body]
fn nfkd_str(s: &str) -> (r: String)
    ensures
        r@ == nfkd_of(s@),
        all_ascii(s@) ==> r@ == s@,
{
    s.nfkd().collect()
}

/// Lower-cases one ASCII letter; every other character is returned unchanged.
pub open spec fn ascii_lower(c: char) -> char {
    if 'A' <= c && c <= 'Z' {
        ((c as int) + 32) as char
    } else {
        c
    }
}

/// The characters that may stand in a slug besides the dash.
pub open spec fn is_word_char(c: char) -> bool {
    ('a' <= c && c <= 'z') || ('0' <= c && c <= '9')
}

pub open spec fn is_ascii_char(c: char) -> bool {
    (c as int) < 128
}

/// Position of the slug scan: nothing emitted yet, inside an alphanumeric run,
/// or past a separator with a run already emitted.
pub enum ScanState {
    Fresh,
    Run,
    Break,
}

/// The slug text produced from the characters of `s`, scanning left to right
/// in state `st`: non-ASCII characters are dropped, ASCII alphanumerics are
/// lower-cased and emitted, and a single dash stands between adjacent runs.
pub open spec fn slug_at(s: Seq<char>, st: ScanState) -> Seq<char>
    decreases s.len(),
{
    if s.len() == 0 {
        Seq::empty()
    } else {
        let c = s[0];
        let rest = s.drop_first();
        if !is_ascii_char(c) {
            slug_at(rest, st)
        } else {
            let l = ascii_lower(c);
            if is_word_char(l) {
                if st is Break {
                    seq!['-', l] + slug_at(rest, ScanState::Run)
                } else {
                    seq![l] + slug_at(rest, ScanState::Run)
                }
            } else {
                if st is Fresh {
                    slug_at(rest, ScanState::Fresh)
                } else {
                    slug_at(rest, ScanState::Break)
                }
            }
        }
    }
}

/// The slug of an already-decomposed character sequence.
pub open spec fn slug_spec(s: Seq<char>) -> Seq<char> {
    slug_at(s, ScanState::Fresh)
}

/// A sequence that slug derivation maps to itself: lower-case ASCII word
/// characters and dashes, with no dash at either end and none doubled.
pub open spec fn canonical_slug(s: Seq<char>) -> bool {
    &&& forall|i: int| 0 <= i < s.len() ==> is_word_char(#[trigger] s[i]) || s[i] == '-'
    &&& forall|i: int| 0 <= i && i + 1 < s.len() ==> !(#[trigger] s[i] == '-' && s[i + 1] == '-')
    &&& s.len() > 0 ==> s[0] != '-'
    &&& s.len() > 0 ==> s[s.len() - 1] != '-'
}

proof fn lemma_slug_at_shape(s: Seq<char>, st: ScanState)
    ensures
        forall|i: int|
            0 <= i < slug_at(s, st).len() ==> is_word_char(#[trigger] slug_at(s, st)[i]) || slug_at(
                s,
                st,
            )[i] == '-',
        forall|i: int|
            0 <= i && i + 1 < slug_at(s, st).len() ==> !(#[trigger] slug_at(s, st)[i] == '-' && slug_at(
                s,
                st,
            )[i + 1] == '-'),
        slug_at(s, st).len() > 0 ==> slug_at(s, st)[slug_at(s, st).len() - 1] != '-',
        (st is Fresh && slug_at(s, st).len() > 0) ==> slug_at(s, st)[0] != '-',
    decreases s.len(),
{
    if s.len() == 0 {
    } else {
        let c = s[0];
        let rest = s.drop_first();
        if !is_ascii_char(c) {
            lemma_slug_at_shape(rest, st);
        } else {
            let l = ascii_lower(c);
            if is_word_char(l) {
                lemma_slug_at_shape(rest, ScanState::Run);
                let o = slug_at(rest, ScanState::Run);
                let w = slug_at(s, st);
                let pre: Seq<char> = if st is Break {
                    seq!['-', l]
                } else {
                    seq![l]
                };
                let k = pre.len() as int;
                assert(w == pre + o);
                assert(w.len() == k + o.len());
                assert(pre[k - 1] == l);
                if st is Break {
                    assert(pre[0] == '-');
                }
                assert forall|i: int| 0 <= i < w.len() implies is_word_char(#[trigger] w[i])
                    || w[i] == '-' by {
                    assert(w[i] == (pre + o)[i]);
                    if i >= k {
                        assert((pre + o)[i] == o[i - k]);
                    } else {
                        assert((pre + o)[i] == pre[i]);
                    }
                }
                assert forall|i: int| 0 <= i && i + 1 < w.len() implies !(#[trigger] w[i] == '-' && w[i
                    + 1] == '-') by {
                    assert(w[i] == (pre + o)[i]);
                    assert(w[i + 1] == (pre + o)[i + 1]);
                    if i + 1 < k {
                        assert((pre + o)[i] == pre[i]);
                        assert((pre + o)[i + 1] == pre[i + 1]);
                    } else if i + 1 == k {
                        assert((pre + o)[i] == pre[i]);
                        assert(pre[i] == l);
                    } else {
                        assert((pre + o)[i] == o[i - k]);
                        assert((pre + o)[i + 1] == o[i + 1 - k]);
                    }
                }
                if o.len() > 0 {
                    assert(w[w.len() - 1] == (pre + o)[w.len() - 1]);
                    assert((pre + o)[w.len() - 1] == o[o.len() - 1]);
                } else {
                    assert(w[w.len() - 1] == (pre + o)[k - 1]);
                }
                if !(st is Break) {
                    assert(w[0] == pre[0]);
                    assert(pre[0] == l);
                }
            } else {
                if st is Fresh {
                    lemma_slug_at_shape(rest, ScanState::Fresh);
                } else {
                    lemma_slug_at_shape(rest, ScanState::Break);
                }
            }
        }
    }
}

/// Law: every derived slug is canonical.
pub proof fn lemma_slug_canonical(s: Seq<char>)
    ensures
        canonical_slug(slug_spec(s)),
{
    lemma_slug_at_shape(s, ScanState::Fresh);
}

/// Law: every derived slug is ASCII text.
pub proof fn lemma_slug_ascii(s: Seq<char>)
    ensures
        all_ascii(slug_spec(s)),
{
    lemma_slug_canonical(s);
    assert forall|i: int| 0 <= i < slug_spec(s).len() implies (slug_spec(s)[i] as int) < 128 by {
        assert(is_word_char(slug_spec(s)[i]) || slug_spec(s)[i] == '-');
    }
}

proof fn lemma_slug_fixed(t: Seq<char>, st: ScanState)
    requires
        forall|i: int| 0 <= i < t.len() ==> is_word_char(#[trigger] t[i]) || t[i] == '-',
        forall|i: int| 0 <= i && i + 1 < t.len() ==> !(#[trigger] t[i] == '-' && t[i + 1] == '-'),
        t.len() > 0 ==> t[t.len() - 1] != '-',
        (t.len() > 0 && t[0] == '-') ==> st is Run,
        !(st is Fresh) && !(st is Run) ==> st is Break,
    ensures
        slug_at(t, st) == if st is Break && t.len() > 0 {
            seq!['-'] + t
        } else {
            t
        },
    decreases t.len(),
{
    if t.len() == 0 {
    } else {
        let c = t[0];
        let rest = t.drop_first();
        assert(is_word_char(c) || c == '-');
        assert forall|i: int| 0 <= i < rest.len() implies is_word_char(#[trigger] rest[i])
            || rest[i] == '-' by {
            assert(rest[i] == t[i + 1]);
        }
        assert forall|i: int| 0 <= i && i + 1 < rest.len() implies !(#[trigger] rest[i] == '-' && rest[i
            + 1] == '-') by {
            assert(rest[i] == t[i + 1]);
            assert(rest[i + 1] == t[i + 2]);
        }
        if rest.len() > 0 {
            assert(rest[rest.len() - 1] == t[t.len() - 1]);
        }
        if is_word_char(c) {
            assert(is_ascii_char(c));
            assert(!('A' <= c && c <= 'Z'));
            assert(ascii_lower(c) == c);
            lemma_slug_fixed(rest, ScanState::Run);
            if st is Break {
                assert(slug_at(t, st) == seq!['-', c] + rest);
                assert(seq!['-', c] + rest =~= seq!['-'] + t);
            } else {
                assert(slug_at(t, st) == seq![c] + rest);
                assert(seq![c] + rest =~= t);
            }
        } else {
            assert(c == '-');
            assert(st is Run);
            assert(is_ascii_char(c));
            assert(ascii_lower(c) == c);
            assert(!is_word_char(c));
            // `t` does not end with a dash, so something follows the leading
            // dash, and no dash is doubled, so that something starts a run.
            if t.len() == 1 {
                assert(t[t.len() - 1] == '-');
                assert(false);
            }
            assert(rest.len() > 0);
            assert(rest[0] == t[1]);
            assert(rest[0] != '-');
            lemma_slug_fixed(rest, ScanState::Break);
            assert(slug_at(t, st) == slug_at(rest, ScanState::Break));
            assert(seq!['-'] + rest =~= t);
        }
    }
}

/// Law: slug derivation is idempotent; deriving a slug of a slug changes
/// nothing.
pub proof fn lemma_slug_idempotent(s: Seq<char>)
    ensures
        slug_spec(slug_spec(s)) == slug_spec(s),
{
    lemma_slug_canonical(s);
    lemma_slug_fixed(slug_spec(s), ScanState::Fresh);
}

fn is_ascii_x(c: char) -> (r: bool)
    ensures
        r == is_ascii_char(c),
{
    (c as u32) < 128
}

fn is_word_x(c: char) -> (r: bool)
    ensures
        r == is_word_char(c),
{
    ('a' <= c && c <= 'z') || ('0' <= c && c <= '9')
}

fn lower_char(c: char) -> (r: char)
    ensures
        r == ascii_lower(c),
{
    if 'A' <= c && c <= 'Z' {
        (((c as u32) + 32) as u8) as char
    } else {
        c
    }
}

fn slug_core(v: &Vec<char>) -> (r: Vec<char>)
    ensures
        r@ == slug_spec(v@),
{
    let mut out: Vec<char> = Vec::new();
    let mut st = ScanState::Fresh;
    let mut i: usize = 0;
    proof {
        assert(v@.skip(0) =~= v@);
        assert(out@ + slug_at(v@, ScanState::Fresh) =~= slug_at(v@, ScanState::Fresh));
    }
    while i < v.len()
        invariant
            i <= v@.len(),
            slug_spec(v@) == out@ + slug_at(v@.skip(i as int), st),
        decreases v@.len() - i,
    {
        let c = v[i];
        proof {
            assert(v@.skip(i as int)[0] == v@[i as int]);
            assert(v@.skip(i as int).drop_first() =~= v@.skip(i + 1 as int));
        }
        if is_ascii_x(c) {
            let l = lower_char(c);
            if is_word_x(l) {
                match st {
                    ScanState::Break => {
                        out.push('-');
                        out.push(l);
                        proof {
                            assert(out@ + slug_at(v@.skip(i + 1 as int), ScanState::Run) =~= slug_spec(
                                v@,
                            ));
                        }
                    },
                    _ => {
                        out.push(l);
                        proof {
                            assert(out@ + slug_at(v@.skip(i + 1 as int), ScanState::Run) =~= slug_spec(
                                v@,
                            ));
                        }
                    },
                }
                st = ScanState::Run;
            } else {
                match st {
                    ScanState::Fresh => {},
                    _ => {
                        st = ScanState::Break;
                    },
                }
            }
        }
        i += 1;
    }
    proof {
        assert(v@.skip(v@.len() as int) =~= Seq::<char>::empty());
        assert(out@ =~= slug_spec(v@));
    }
    out
}

/// Derives the stable identifier used for a cover: the name is decomposed,
/// non-ASCII characters are dropped, letters are lower-cased, and the
/// alphanumeric runs are joined by single dashes.
pub fn slugify(name: &str) -> (r: String)
    ensures
        r@ == slug_spec(nfkd_of(name@)),
        all_ascii(name@) ==> r@ == slug_spec(name@),
        r@ == slug_spec(r@),
        all_ascii(r@),
        canonical_slug(r@),
{
    let d = nfkd_str(name);
    let v = text::chars_of(d.as_str());
    let out = slug_core(&v);
    let r = text::string_of(&out);
    proof {
        lemma_slug_canonical(nfkd_of(name@));
        lemma_slug_ascii(nfkd_of(name@));
        lemma_slug_idempotent(nfkd_of(name@));
    }
    r
}

} // verus!

