use capas_api::jsonfmt::capas_json_string;
use capas_api::sections::{Capa, Sections};

fn capa(nome: &str, url: &str) -> Capa {
    Capa {
        id: capas_api::slug::slugify(nome),
        nome: nome.to_string(),
        url: url.to_string(),
    }
}

#[test]
fn capas_json_exact_text() {
    let mut m = Sections::new();
    m.insert(
        "Desporto".to_string(),
        vec![capa("A Bola", "https://x.test/a.jpg")],
    );
    let s = capas_json_string(&m);
    assert_eq!(
        s,
        "{\"Desporto\":[{\"id\":\"a-bola\",\"nome\":\"A Bola\",\"url\":\"https://x.test/a.jpg\"}]}"
    );
}

#[test]
fn capas_json_empty_map() {
    let m = Sections::new();
    assert_eq!(capas_json_string(&m), "{}");
}

#[test]
fn capas_json_is_valid_json() {
    let mut m = Sections::new();
    m.insert(
        "Jornais Nacionais".to_string(),
        vec![
            capa("Correio da Manhã", "https://x.test/cm.jpg"),
            capa("Público", "https://x.test/p.jpg"),
        ],
    );
    m.insert("Desporto".to_string(), vec![capa("O Jogo", "https://x.test/j.jpg")]);
    let s = capas_json_string(&m);
    let v: serde_json::Value = serde_json::from_str(&s).expect("writer must emit valid JSON");
    assert_eq!(v["Jornais Nacionais"].as_array().unwrap().len(), 2);
    assert_eq!(v["Desporto"].as_array().unwrap().len(), 1);
    assert_eq!(v["Jornais Nacionais"][1]["nome"], "Público");
}

#[test]
fn capas_json_escapes_strings() {
    let mut m = Sections::new();
    m.insert(
        "Desporto".to_string(),
        vec![capa("A \"Bola\"\n\\tab\t", "https://x.test/a.jpg")],
    );
    let s = capas_json_string(&m);
    let v: serde_json::Value = serde_json::from_str(&s).expect("escaped text must stay valid JSON");
    assert_eq!(
        v["Desporto"][0]["nome"].as_str().unwrap(),
        "A \"Bola\"\n\\tab\t"
    );
}

#[test]
fn capas_json_round_trip_keys_and_lengths() {
    // Writing and re-reading the artifact reproduces the section keys, their
    // order, and every cover list length.
    let mut m = Sections::new();
    m.insert(
        "Jornais Nacionais".to_string(),
        vec![
            capa("Público", "https://x.test/p.jpg"),
            capa("Expresso", "https://x.test/e.jpg"),
        ],
    );
    m.insert("Desporto".to_string(), vec![capa("A Bola", "https://x.test/a.jpg")]);
    m.insert("Economia e Gestão".to_string(), vec![]);
    let s = capas_json_string(&m);

    // Lengths through a real JSON reader.
    let v: serde_json::Value = serde_json::from_str(&s).unwrap();
    for sec in &m.entries {
        assert_eq!(
            v[&sec.nome].as_array().unwrap().len(),
            sec.capas.len(),
            "length kept for {}",
            sec.nome
        );
    }

    // Key order through the text itself.
    let positions: Vec<usize> = m
        .entries
        .iter()
        .map(|sec| s.find(&format!("\"{}\":", sec.nome)).unwrap())
        .collect();
    let mut sorted = positions.clone();
    sorted.sort();
    assert_eq!(positions, sorted, "keys appear in insertion order");
    assert_eq!(v.as_object().unwrap().len(), m.entries.len());
}
