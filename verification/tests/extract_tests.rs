use capas_api::extract::{
    base_url, capa_href, make_capa, name_from_alts, pick_cover_src, resolve_url, section_allowed,
    section_name, user_agent,
};

#[test]
fn allowed_sections_match_the_fixed_list() {
    assert!(section_allowed("Jornais Nacionais"));
    assert!(section_allowed("Desporto"));
    assert!(section_allowed("Economia e Gestão"));
    assert!(!section_allowed("Outros"));
    assert!(!section_allowed("Desporto "));
}

#[test]
fn section_name_trims_or_defaults() {
    assert_eq!(section_name(&Some("  Desporto \n".to_string())), "Desporto");
    assert_eq!(section_name(&None), "Outros");
}

#[test]
fn capa_href_needs_a_marker() {
    assert!(capa_href("/capa/publico"));
    assert!(capa_href("https://www.vercapas.com/covers/123"));
    assert!(!capa_href("/sobre"));
}

#[test]
fn resolve_url_keeps_absolute_and_prefixes_relative() {
    assert_eq!(
        resolve_url(base_url(), "https://cdn.test/x.jpg"),
        "https://cdn.test/x.jpg"
    );
    assert_eq!(
        resolve_url(base_url(), "/capa/publico"),
        "https://www.vercapas.com/capa/publico"
    );
}

#[test]
fn name_from_alts_takes_the_last() {
    assert_eq!(
        name_from_alts(&vec!["first".to_string(), "Público".to_string()]),
        "Público"
    );
    assert_eq!(name_from_alts(&Vec::new()), "desconhecido");
}

#[test]
fn pick_cover_src_takes_first_marked_image() {
    let srcs = vec![
        "/logo.png".to_string(),
        "/covers/a.jpg".to_string(),
        "/covers/b.jpg".to_string(),
    ];
    assert_eq!(
        pick_cover_src(base_url(), &srcs).unwrap(),
        "https://www.vercapas.com/covers/a.jpg"
    );
    assert!(pick_cover_src(base_url(), &vec!["/logo.png".to_string()]).is_none());
}

#[test]
fn make_capa_derives_the_slug() {
    let c = make_capa("Público", "https://x.test/p.jpg".to_string());
    assert_eq!(c.id, "publico");
    assert_eq!(c.nome, "Público");
    assert_eq!(c.url, "https://x.test/p.jpg");
}

#[test]
fn fixed_fetch_identity() {
    assert_eq!(user_agent(), "Mozilla/5.0 (CapasBot/1.0)");
    assert_eq!(base_url(), "https://www.vercapas.com");
}
