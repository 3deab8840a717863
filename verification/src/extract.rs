//! Extraction decisions for the scraped pages: which homepage sections are
//! kept, which links are cover candidates, how a display name is chosen, how
//! relative addresses are resolved, and which image of a detail page is the
//! cover. The page walking itself happens outside; these functions decide.
use vstd::prelude::*;

verus! {

use crate::sections::Capa;
use crate::slug;
use crate::text;

/// The scraped site.
pub fn base_url() -> (r: &'static str)
    ensures
        r@ == "https://www.vercapas.com"@,
{
    "https://www.vercapas.com"
}

/// The browser identity the fetches carry.
pub fn user_agent() -> (r: &'static str)
    ensures
        r@ == "Mozilla/5.0 (CapasBot/1.0)"@,
{
    "Mozilla/5.0 (CapasBot/1.0)"
}

/// The heading texts of the homepage sections that are kept.
pub open spec fn allowed_sections() -> Seq<Seq<char>> {
    seq!["Jornais Nacionais"@, "Desporto"@, "Economia e Gest\u{e3}o"@]
}

/// The name of a scraped section: its heading text trimmed, or the catch-all
/// name when it has no heading.
pub fn section_name(heading: &Option<String>) -> (r: String)
    ensures
        match heading {
            Some(t) => r@ == text::trim_spec(t@),
            None => r@ == "Outros"@,
        },
{
    match heading {
        Some(t) => text::trim_str(t.as_str()),
        None => "Outros".to_owned(),
    }
}

/// Whether a section of this name is kept.
pub fn section_allowed(name: &str) -> (r: bool)
    ensures
        r == allowed_sections().contains(name@),
{
    let r = text::str_eq(name, "Jornais Nacionais") || text::str_eq(name, "Desporto")
        || text::str_eq(name, "Economia e Gest\u{e3}o");
    proof {
        let a = allowed_sections();
        assert(a[0] == "Jornais Nacionais"@);
        assert(a[1] == "Desporto"@);
        assert(a[2] == "Economia e Gest\u{e3}o"@);
        if !r && a.contains(name@) {
            let i = choose|i: int| 0 <= i < a.len() && a[i] == name@;
            assert(i == 0 || i == 1 || i == 2);
        }
    }
    r
}

/// A link is a cover candidate when its address holds a cover path marker.
pub open spec fn is_capa_href(h: Seq<char>) -> bool {
    text::contains_sub(h, "/capa/"@) || text::contains_sub(h, "/covers/"@)
}

/// Whether this link address points at a cover page.
pub fn capa_href(href: &str) -> (r: bool)
    ensures
        r == is_capa_href(href@),
{
    text::str_contains(href, "/capa/") || text::str_contains(href, "/covers/")
}

/// An address as fetched: absolute ones stand, relative ones hang off the
/// base.
pub open spec fn resolve_spec(base: Seq<char>, href: Seq<char>) -> Seq<char> {
    if text::starts_with_spec(href, "http"@) {
        href
    } else {
        base + href
    }
}

/// Resolves a scraped address against the base.
pub fn resolve_url(base: &str, href: &str) -> (r: String)
    ensures
        r@ == resolve_spec(base@, href@),
{
    if text::str_starts_with(href, "http") {
        href.to_owned()
    } else {
        let mut out: Vec<char> = Vec::new();
        text::push_str_chars(base, &mut out);
        text::push_str_chars(href, &mut out);
        text::string_of(&out)
    }
}

/// The display name for a candidate link: the last image alternative text
/// inside it, or the fallback name when none was found.
pub fn name_from_alts(alts: &Vec<String>) -> (r: String)
    ensures
        alts@.len() > 0 ==> r@ == alts@[alts@.len() - 1]@,
        alts@.len() == 0 ==> r@ == "desconhecido"@,
{
    if alts.len() > 0 {
        let s: &String = &alts[alts.len() - 1];
        s.clone()
    } else {
        "desconhecido".to_owned()
    }
}

/// The first image source of a detail page that carries the cover marker,
/// resolved; None when the page shows no cover.
pub open spec fn first_cover_src(base: Seq<char>, srcs: Seq<Seq<char>>) -> Option<Seq<char>>
    decreases srcs.len(),
{
    if srcs.len() == 0 {
        None
    } else if text::contains_sub(srcs[0], "covers"@) {
        Some(resolve_spec(base, srcs[0]))
    } else {
        first_cover_src(base, srcs.drop_first())
    }
}

proof fn lemma_first_cover_found(base: Seq<char>, srcs: Seq<Seq<char>>, p: int)
    requires
        0 <= p < srcs.len(),
        text::contains_sub(srcs[p], "covers"@),
        forall|j: int| 0 <= j < p ==> !text::contains_sub(#[trigger] srcs[j], "covers"@),
    ensures
        first_cover_src(base, srcs) == Some(resolve_spec(base, srcs[p])),
    decreases p,
{
    if p == 0 {
    } else {
        let rest = srcs.drop_first();
        assert forall|j: int| 0 <= j < p - 1 implies !text::contains_sub(
            #[trigger] rest[j],
            "covers"@,
        ) by {
            assert(rest[j] == srcs[j + 1]);
        }
        assert(rest[p - 1] == srcs[p]);
        lemma_first_cover_found(base, rest, p - 1);
    }
}

proof fn lemma_first_cover_missing(base: Seq<char>, srcs: Seq<Seq<char>>)
    requires
        forall|j: int| 0 <= j < srcs.len() ==> !text::contains_sub(#[trigger] srcs[j], "covers"@),
    ensures
        first_cover_src(base, srcs) is None,
    decreases srcs.len(),
{
    if srcs.len() == 0 {
    } else {
        let rest = srcs.drop_first();
        assert forall|j: int| 0 <= j < rest.len() implies !text::contains_sub(
            #[trigger] rest[j],
            "covers"@,
        ) by {
            assert(rest[j] == srcs[j + 1]);
        }
        lemma_first_cover_missing(base, rest);
    }
}

/// Picks the cover image of a detail page: the first source that carries the
/// cover marker, resolved.
pub fn pick_cover_src(base: &str, srcs: &Vec<String>) -> (r: Option<String>)
    ensures
        match r {
            Some(u) => first_cover_src(base@, srcs.deep_view()) == Some(u@),
            None => first_cover_src(base@, srcs.deep_view()) is None,
        },
{
    let ghost dv = srcs.deep_view();
    let n = srcs.len();
    let mut i: usize = 0;
    while i < n
        invariant
            dv == srcs.deep_view(),
            n == srcs@.len(),
            dv.len() == n,
            i <= n,
            forall|j: int| 0 <= j < i ==> !text::contains_sub(#[trigger] dv[j], "covers"@),
        decreases n - i,
    {
        proof {
            assert(dv[i as int] == srcs@[i as int]@);
        }
        if text::str_contains(srcs[i].as_str(), "covers") {
            let u = resolve_url(base, srcs[i].as_str());
            proof {
                lemma_first_cover_found(base@, dv, i as int);
            }
            return Some(u);
        }
        i += 1;
    }
    proof {
        lemma_first_cover_missing(base@, dv);
    }
    None
}

/// Builds a cover from its chosen name and resolved image address; the
/// identifier is the name's slug.
pub fn make_capa(nome: &str, url: String) -> (r: Capa)
    ensures
        r@.nome == nome@,
        r@.url == url@,
        r@.id == slug::slug_spec(slug::nfkd_of(nome@)),
{
    let id = slug::slugify(nome);
    Capa { id, nome: nome.to_owned(), url }
}

} // verus!
