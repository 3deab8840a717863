use capas_api::digest::{
    digest_json_string, digest_prompt, digest_request_body, digest_url, parse_digest_response,
    DigestEntry, DigestError,
};
use capas_api::pipeline::{assemble_outputs, digest_covers, AiAccess};
use capas_api::sections::{Capa, Sections};

fn capa(nome: &str, url: &str) -> Capa {
    Capa {
        id: capas_api::slug::slugify(nome),
        nome: nome.to_string(),
        url: url.to_string(),
    }
}

fn envelope(text: &str) -> String {
    let v = serde_json::Value::String(text.to_string());
    format!(
        "{{\"candidates\":[{{\"content\":{{\"parts\":[{{\"text\":{}}}]}}}}]}}",
        serde_json::to_string(&v).unwrap()
    )
}

#[test]
fn response_with_digest_entries() {
    let payload = "```json\n{\"digest\":[{\"title\":\"T\",\"summary\":\"S\",\"sources\":[\"A Bola\",\"Record\"],\"category\":\"Desporto\"}]}\n```";
    let body = envelope(payload);
    let entries = parse_digest_response(&body).expect("well-formed response parses");
    assert_eq!(entries.len(), 1);
    assert_eq!(entries[0].title, "T");
    assert_eq!(entries[0].summary, "S");
    assert_eq!(entries[0].sources, vec!["A Bola", "Record"]);
    assert_eq!(entries[0].category, "Desporto");
}

#[test]
fn response_body_not_json_is_error_not_abort() {
    let r = parse_digest_response("<html>rate limited</html>");
    assert!(matches!(r, Err(DigestError::BodyNotJson)));
}

#[test]
fn response_payload_not_json_is_error_not_abort() {
    let body = envelope("```json\nthis is not json at all\n```");
    let r = parse_digest_response(&body);
    assert!(matches!(r, Err(DigestError::PayloadNotJson)));
}

#[test]
fn response_without_text_is_empty_digest() {
    let r = parse_digest_response("{\"candidates\":[]}").expect("no text means empty digest");
    assert!(r.is_empty());
}

#[test]
fn response_entry_without_title_is_passed_over() {
    let payload = "{\"digest\":[{\"summary\":\"S\",\"category\":\"Nacional\"},{\"title\":\"T\",\"summary\":\"S\",\"category\":\"Nacional\"}]}";
    let body = envelope(payload);
    let entries = parse_digest_response(&body).unwrap();
    assert_eq!(entries.len(), 1);
    assert_eq!(entries[0].title, "T");
    assert!(entries[0].sources.is_empty());
}

#[test]
fn response_entry_with_unknown_category_is_passed_over() {
    let payload = "{\"digest\":[{\"title\":\"T\",\"summary\":\"S\",\"category\":\"Internacional\"},{\"title\":\"U\",\"summary\":\"V\",\"category\":\"Desporto\"}]}";
    let body = envelope(payload);
    let entries = parse_digest_response(&body).unwrap();
    assert_eq!(entries.len(), 1);
    assert_eq!(entries[0].title, "U");
    assert_eq!(entries[0].category, "Desporto");
}

#[test]
fn fenced_and_unfenced_payloads_agree() {
    let payload = "{\"digest\":[{\"title\":\"T\",\"summary\":\"S\",\"category\":\"Nacional\"}]}";
    let fenced = envelope(&format!("```json\n{}\n```", payload));
    let plain = envelope(payload);
    let a = parse_digest_response(&fenced).unwrap();
    let b = parse_digest_response(&plain).unwrap();
    assert_eq!(a.len(), b.len());
    assert_eq!(a[0].title, b[0].title);
    assert_eq!(a[0].summary, b[0].summary);
    assert_eq!(a[0].category, b[0].category);
}

#[test]
fn digest_covers_takes_five_per_named_section() {
    let mut m = Sections::new();
    m.insert(
        "Jornais Nacionais".to_string(),
        (0..7).map(|i| capa(&format!("N{}", i), &format!("https://x.test/n{}.jpg", i))).collect(),
    );
    m.insert(
        "Economia e Gestão".to_string(),
        vec![capa("Negócios", "https://x.test/ng.jpg")],
    );
    m.insert("Desporto".to_string(), vec![capa("A Bola", "https://x.test/a.jpg")]);
    let covers = digest_covers(&m);
    assert_eq!(covers.len(), 6);
    for i in 0..5 {
        assert_eq!(covers[i].0, format!("https://x.test/n{}.jpg", i));
        assert_eq!(covers[i].1, format!("N{}", i));
    }
    assert_eq!(covers[5], ("https://x.test/a.jpg".to_string(), "A Bola".to_string()));
}

#[test]
fn digest_covers_skips_other_sections() {
    let mut m = Sections::new();
    m.insert("Economia e Gestão".to_string(), vec![capa("Negócios", "https://x.test/ng.jpg")]);
    assert!(digest_covers(&m).is_empty());
}

#[test]
fn malformed_batch_leaves_covers_untouched() {
    // A malformed AI response must not abort the run: the section artifact is
    // written from the scraped covers alone, with no digest artifact.
    let mut m = Sections::new();
    m.insert(
        "Desporto".to_string(),
        vec![Capa {
            id: "a-bola".to_string(),
            nome: "A Bola".to_string(),
            url: "https://x.test/a.jpg".to_string(),
        }],
    );
    let digest = match parse_digest_response("garbage") {
        Ok(es) => Some(es),
        Err(_) => None,
    };
    assert!(digest.is_none());
    let out = assemble_outputs(&m, &digest);
    assert!(out.digest_text.is_none());
    assert_eq!(
        out.capas_text,
        "{\"Desporto\":[{\"id\":\"a-bola\",\"nome\":\"A Bola\",\"url\":\"https://x.test/a.jpg\"}]}"
    );
}

#[test]
fn absent_key_disables_ai_and_digest_artifact() {
    let access = AiAccess::from_key(None);
    assert!(!access.enabled());
    assert!(access.key().is_none());
    let m = Sections::new();
    let out = assemble_outputs(&m, &None);
    assert!(out.digest_text.is_none());
    assert_eq!(out.capas_text, "{}");
}

#[test]
fn present_key_enables_ai() {
    let access = AiAccess::from_key(Some("k-test".to_string()));
    assert!(access.enabled());
    assert_eq!(access.key().unwrap(), "k-test");
}

#[test]
fn empty_digest_writes_no_artifact() {
    let m = Sections::new();
    let out = assemble_outputs(&m, &Some(Vec::new()));
    assert!(out.digest_text.is_none());
}

#[test]
fn digest_artifact_exact_text() {
    let e = DigestEntry {
        title: "T".to_string(),
        summary: "S".to_string(),
        sources: vec!["A Bola".to_string()],
        category: "Desporto".to_string(),
    };
    let s = digest_json_string(&vec![e]);
    assert_eq!(
        s,
        "{\"digest\":[{\"title\":\"T\",\"summary\":\"S\",\"sources\":[\"A Bola\"],\"category\":\"Desporto\"}]}"
    );
    let v: serde_json::Value = serde_json::from_str(&s).unwrap();
    assert_eq!(v["digest"][0]["title"], "T");
}

#[test]
fn prompt_numbers_the_names() {
    let names = vec!["Público".to_string(), "A Bola".to_string()];
    let p = digest_prompt(&names);
    assert!(p.starts_with("Act as a professional news editor."));
    assert!(p.contains("1. Público\n"));
    assert!(p.contains("2. A Bola\n"));
    assert!(p.ends_with("\"category\": \"...\" } ] }"));
}

#[test]
fn request_body_inlines_base64_images() {
    let body = digest_request_body("hello", &vec![vec![0u8, 1, 2, 3, 4]]);
    let v: serde_json::Value = serde_json::from_str(&body).unwrap();
    let parts = v["contents"][0]["parts"].as_array().unwrap();
    assert_eq!(parts.len(), 2);
    assert_eq!(parts[0]["text"], "hello");
    assert_eq!(parts[1]["inline_data"]["mime_type"], "image/jpeg");
    // The standard padded encoding of the bytes 0,1,2,3,4.
    assert_eq!(parts[1]["inline_data"]["data"], "AAECAwQ=");
}

#[test]
fn request_url_carries_key() {
    let u = digest_url("k123");
    assert_eq!(
        u,
        "https://generativelanguage.googleapis.com/v1beta/models/gemini-2.0-flash-exp:generateContent?key=k123"
    );
}
