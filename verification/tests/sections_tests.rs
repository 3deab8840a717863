use capas_api::classify::reorder;
use capas_api::sections::{Capa, Section, Sections};

fn capa(nome: &str) -> Capa {
    Capa {
        id: capas_api::slug::slugify(nome),
        nome: nome.to_string(),
        url: format!("https://example.test/{}.jpg", nome.len()),
    }
}

fn names(s: &Section) -> Vec<String> {
    s.capas.iter().map(|c| c.nome.clone()).collect()
}

#[test]
fn insert_keeps_insertion_order() {
    let mut m = Sections::new();
    m.insert("Desporto".to_string(), vec![capa("A Bola")]);
    m.insert("Jornais Nacionais".to_string(), vec![capa("Público")]);
    assert_eq!(m.entries.len(), 2);
    assert_eq!(m.entries[0].nome, "Desporto");
    assert_eq!(m.entries[1].nome, "Jornais Nacionais");
}

#[test]
fn insert_replaces_in_place() {
    let mut m = Sections::new();
    m.insert("Desporto".to_string(), vec![capa("A Bola")]);
    m.insert("Jornais Nacionais".to_string(), vec![capa("Público")]);
    m.insert("Desporto".to_string(), vec![capa("Record"), capa("O Jogo")]);
    assert_eq!(m.entries.len(), 2);
    assert_eq!(m.entries[0].nome, "Desporto");
    assert_eq!(names(&m.entries[0]), vec!["Record", "O Jogo"]);
}

#[test]
fn remove_shifts_later_entries() {
    let mut m = Sections::new();
    m.insert("Jornais Nacionais".to_string(), vec![capa("Público")]);
    m.insert("Desporto".to_string(), vec![capa("A Bola")]);
    let taken = m.remove("Jornais Nacionais").unwrap();
    assert_eq!(taken.len(), 1);
    assert_eq!(taken[0].nome, "Público");
    assert_eq!(m.entries.len(), 1);
    assert_eq!(m.entries[0].nome, "Desporto");
    assert!(m.remove("Jornais Nacionais").is_none());
}

#[test]
fn reorder_moves_outlet_and_keeps_tie_order() {
    // national [A, B(outlet), C], sports [D] => national [A, C], sports [D, B]
    // reordered by the preference list; D and B here are both non-preferred
    // names or preferred ones, so the fixed order decides.
    let mut m = Sections::new();
    m.insert(
        "Jornais Nacionais".to_string(),
        vec![capa("Público"), capa("Record"), capa("Correio da Manhã")],
    );
    m.insert("Desporto".to_string(), vec![capa("Mais Futebol")]);
    let out = reorder(m);
    assert_eq!(out.entries.len(), 2);
    assert_eq!(out.entries[0].nome, "Jornais Nacionais");
    assert_eq!(names(&out.entries[0]), vec!["Público", "Correio da Manhã"]);
    assert_eq!(out.entries[1].nome, "Desporto");
    // "Record" is on the preference list, "Mais Futebol" is not: the
    // preferred cover comes first, the rest keep their order after it.
    assert_eq!(names(&out.entries[1]), vec!["Record", "Mais Futebol"]);
}

#[test]
fn reorder_preference_order_with_tail() {
    // sports input [Record, A Bola, X] comes out [A Bola, Record, X].
    let mut m = Sections::new();
    m.insert(
        "Desporto".to_string(),
        vec![capa("Record"), capa("A Bola"), capa("X Desportivo")],
    );
    let out = reorder(m);
    assert_eq!(out.entries[0].nome, "Jornais Nacionais");
    assert!(out.entries[0].capas.is_empty());
    assert_eq!(out.entries[1].nome, "Desporto");
    assert_eq!(names(&out.entries[1]), vec!["A Bola", "Record", "X Desportivo"]);
}

#[test]
fn reorder_full_preference_list() {
    let mut m = Sections::new();
    m.insert(
        "Desporto".to_string(),
        vec![capa("O Jogo"), capa("Record"), capa("A Bola")],
    );
    let out = reorder(m);
    assert_eq!(names(&out.entries[1]), vec!["A Bola", "Record", "O Jogo"]);
}

#[test]
fn reorder_keeps_economy_last_when_present() {
    let mut m = Sections::new();
    m.insert("Economia e Gestão".to_string(), vec![capa("Jornal de Negócios")]);
    m.insert("Jornais Nacionais".to_string(), vec![capa("Público")]);
    m.insert("Desporto".to_string(), vec![capa("A Bola")]);
    let out = reorder(m);
    let keys: Vec<&str> = out.entries.iter().map(|s| s.nome.as_str()).collect();
    assert_eq!(keys, vec!["Jornais Nacionais", "Desporto", "Economia e Gestão"]);
    assert_eq!(names(&out.entries[2]), vec!["Jornal de Negócios"]);
}

#[test]
fn reorder_without_economy_yields_two_sections() {
    let mut m = Sections::new();
    m.insert("Jornais Nacionais".to_string(), vec![capa("Público")]);
    let out = reorder(m);
    let keys: Vec<&str> = out.entries.iter().map(|s| s.nome.as_str()).collect();
    assert_eq!(keys, vec!["Jornais Nacionais", "Desporto"]);
}

#[test]
fn reorder_is_deterministic() {
    let build = || {
        let mut m = Sections::new();
        m.insert(
            "Jornais Nacionais".to_string(),
            vec![capa("Público"), capa("A Bola")],
        );
        m
    };
    let a = reorder(build());
    let b = reorder(build());
    let ka: Vec<String> = a.entries.iter().map(|s| s.nome.clone()).collect();
    let kb: Vec<String> = b.entries.iter().map(|s| s.nome.clone()).collect();
    assert_eq!(ka, kb);
    for (sa, sb) in a.entries.iter().zip(b.entries.iter()) {
        assert_eq!(names(sa), names(sb));
    }
}
