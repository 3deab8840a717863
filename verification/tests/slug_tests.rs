use capas_api::slug::slugify;

#[test]
fn slug_strips_accents() {
    assert_eq!(slugify("Público"), "publico");
}

#[test]
fn slug_collapses_separators() {
    assert_eq!(slugify("A  Bola!!"), "a-bola");
    assert_eq!(slugify("--Correio   da   Manhã--"), "correio-da-manha");
}

#[test]
fn slug_no_leading_or_trailing_dash() {
    let s = slugify("  O Jogo  ");
    assert_eq!(s, "o-jogo");
    assert!(!s.starts_with('-'));
    assert!(!s.ends_with('-'));
}

#[test]
fn slug_idempotent() {
    for name in ["Público", "A Bola", "Económico!!", "  weird -- name  ", "ß and æ"] {
        let once = slugify(name);
        let twice = slugify(&once);
        assert_eq!(once, twice);
    }
}

#[test]
fn slug_deterministic() {
    assert_eq!(slugify("Jornal de Notícias"), slugify("Jornal de Notícias"));
    assert_eq!(slugify("Jornal de Notícias"), "jornal-de-noticias");
}

#[test]
fn slug_mixed_case_and_digits() {
    assert_eq!(slugify("Record 2024"), "record-2024");
    assert_eq!(slugify("SÁBADO"), "sabado");
}

#[test]
fn slug_empty_and_symbol_only() {
    assert_eq!(slugify(""), "");
    assert_eq!(slugify("!!!"), "");
}
