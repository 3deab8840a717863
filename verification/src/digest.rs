//! The optional AI digest: building the request for the generative endpoint
//! (prompt text, inlined base64 images, JSON body), and parsing its response
//! (envelope, code-fence cleaning, digest entries). Parsing never panics: a
//! malformed response becomes an error value, never an abort.
use vstd::prelude::*;

verus! {

use crate::jsonfmt::{
    JsonMember, JsonValue, JsonV, get_member, obj_get, json_text, items_upto, members_upto,
    member_text, push_json_str, push_escaped,
};
use crate::text;

broadcast use vstd::string::group_string_axioms;

/// Whether a text is a well-formed JSON document, as serde_json decides it.
pub uninterp spec fn json_wf(s: Seq<char>) -> bool;

/// The tree a text parses to — Some exactly on well-formed documents; a
/// function of the text alone.
pub uninterp spec fn parsed_json_of(s: Seq<char>) -> Option<JsonValue>;

#[verifier::external_type_specification]
#[verifier::external_body]
pub struct ExSerdeValue(serde_json::Value);

/// Relies on serde_json::Value: its six variants are copied one for one into
/// the library's parsed tree; a number is carried as its decimal text, which
/// serde_json::Number's Display writes.
#[verifier::external_body]
fn value_tree(v: &serde_json::Value) -> JsonValue {
    match v {
        serde_json::Value::Null => JsonValue::Null,
        serde_json::Value::Bool(b) => JsonValue::Bool(*b),
        serde_json::Value::Number(n) => JsonValue::Num(n.to_string()),
        serde_json::Value::String(s) => JsonValue::Str(s.clone()),
        serde_json::Value::Array(a) => JsonValue::Arr(a.iter().map(value_tree).collect()),
        serde_json::Value::Object(m) => JsonValue::Obj(
            m.iter().map(
                |(k, v)| JsonMember { key: k.clone(), value: value_tree(v) },
            ).collect(),
        ),
    }
}

/// Relies on serde_json::from_str::<serde_json::Value>: it returns Ok exactly
/// when the input is one well-formed JSON document, and the parse depends on
/// the text alone, which names its result.
#[verifier::external_body]
fn parse_json(s: &str) -> (r: Option<JsonValue>)
    ensures
        r is Some <==> json_wf(s@),
        r == parsed_json_of(s@),
{
    match serde_json::from_str::<serde_json::Value>(s) {
        Ok(v) => Some(value_tree(&v)),
        Err(_) => None,
    }
}

/// The base64 encoding of `bytes`, as the standard alphabet writes it.
pub uninterp spec fn base64_of(bytes: Seq<u8>) -> Seq<char>;

/// Relies on base64's STANDARD engine: the encoding depends on the bytes
/// alone, and writes four characters for every started group of three bytes,
/// padded.
#[verifier::external_body]
fn encode_base64(bytes: &Vec<u8>) -> (r: String)
    ensures
        r@ == base64_of(bytes@),
        r@.len() == 4 * ((bytes@.len() + 2) / 3),
{
    base64::Engine::encode(&base64::engine::general_purpose::STANDARD, bytes)
}

/// The text the generative endpoint answered with, read from the response
/// envelope at candidates, first element, content, parts, first element,
/// text.
pub open spec fn envelope_text_spec(v: JsonValue) -> Option<Seq<char>> {
    match v {
        JsonValue::Obj(ms) => match obj_get(ms@, "candidates"@) {
            Some(JsonValue::Arr(cands)) => if cands@.len() > 0 {
                match cands@[0] {
                    JsonValue::Obj(cms) => match obj_get(cms@, "content"@) {
                        Some(JsonValue::Obj(coms)) => match obj_get(coms@, "parts"@) {
                            Some(JsonValue::Arr(parts)) => if parts@.len() > 0 {
                                match parts@[0] {
                                    JsonValue::Obj(pms) => match obj_get(pms@, "text"@) {
                                        Some(JsonValue::Str(s)) => Some(s@),
                                        _ => None,
                                    },
                                    _ => None,
                                }
                            } else {
                                None
                            },
                            _ => None,
                        },
                        _ => None,
                    },
                    _ => None,
                }
            } else {
                None
            },
            _ => None,
        },
        _ => None,
    }
}

/// Reads the answered text out of a response envelope.
pub fn envelope_text(v: &JsonValue) -> (r: Option<String>)
    ensures
        match r {
            Some(s) => envelope_text_spec(*v) == Some(s@),
            None => envelope_text_spec(*v) is None,
        },
{
    match v {
        JsonValue::Obj(ms) => match get_member(ms, "candidates") {
            Some(JsonValue::Arr(cands)) => if cands.len() > 0 {
                match &cands[0] {
                    JsonValue::Obj(cms) => match get_member(cms, "content") {
                        Some(JsonValue::Obj(coms)) => match get_member(coms, "parts") {
                            Some(JsonValue::Arr(parts)) => if parts.len() > 0 {
                                match &parts[0] {
                                    JsonValue::Obj(pms) => match get_member(pms, "text") {
                                        Some(JsonValue::Str(s)) => Some(s.clone()),
                                        _ => None,
                                    },
                                    _ => None,
                                }
                            } else {
                                None
                            },
                            _ => None,
                        },
                        _ => None,
                    },
                    _ => None,
                }
            } else {
                None
            },
            _ => None,
        },
        _ => None,
    }
}

/// One entry of the daily digest.
pub struct DigestEntry {
    pub title: String,
    pub summary: String,
    pub sources: Vec<String>,
    pub category: String,
}

/// The mathematical value of a digest entry.
pub ghost struct DigestEntryV {
    pub title: Seq<char>,
    pub summary: Seq<char>,
    pub sources: Seq<Seq<char>>,
    pub category: Seq<char>,
}

impl View for DigestEntry {
    type V = DigestEntryV;

    open spec fn view(&self) -> DigestEntryV {
        DigestEntryV {
            title: self.title@,
            summary: self.summary@,
            sources: self.sources.deep_view(),
            category: self.category@,
        }
    }
}

impl DeepView for DigestEntry {
    type V = DigestEntryV;

    open spec fn deep_view(&self) -> DigestEntryV {
        self@
    }
}

/// The string elements of a JSON array, in order; everything else is passed
/// over.
pub open spec fn str_items(items: Seq<JsonValue>) -> Seq<Seq<char>>
    decreases items.len(),
{
    if items.len() == 0 {
        Seq::empty()
    } else {
        match items[0] {
            JsonValue::Str(s) => seq![s@] + str_items(items.drop_first()),
            _ => str_items(items.drop_first()),
        }
    }
}

/// The digest entry a JSON value stands for: an object with string title and
/// summary, and one of the two categories a digest knows; its sources are the
/// string elements of its sources array, or empty when absent.
pub open spec fn entry_of_spec(v: JsonValue) -> Option<DigestEntryV> {
    match v {
        JsonValue::Obj(ms) => match (obj_get(ms@, "title"@), obj_get(ms@, "summary"@), obj_get(
            ms@,
            "category"@,
        )) {
            (Some(JsonValue::Str(t)), Some(JsonValue::Str(su)), Some(JsonValue::Str(c))) => if c@
                == "Nacional"@ || c@ == "Desporto"@ {
                Some(
                    DigestEntryV {
                        title: t@,
                        summary: su@,
                        sources: match obj_get(ms@, "sources"@) {
                            Some(JsonValue::Arr(items)) => str_items(items@),
                            _ => Seq::empty(),
                        },
                        category: c@,
                    },
                )
            } else {
                None
            },
            _ => None,
        },
        _ => None,
    }
}

/// The digest entries of a JSON array: elements without the entry shape are
/// passed over.
pub open spec fn entries_of_spec(items: Seq<JsonValue>) -> Seq<DigestEntryV>
    decreases items.len(),
{
    if items.len() == 0 {
        Seq::empty()
    } else {
        match entry_of_spec(items[0]) {
            Some(e) => seq![e] + entries_of_spec(items.drop_first()),
            None => entries_of_spec(items.drop_first()),
        }
    }
}

/// The digest a parsed payload carries: the entries of its digest array, or
/// none at all when the shape is absent.
pub open spec fn digest_of_spec(v: JsonValue) -> Seq<DigestEntryV> {
    match v {
        JsonValue::Obj(ms) => match obj_get(ms@, "digest"@) {
            Some(JsonValue::Arr(items)) => entries_of_spec(items@),
            _ => Seq::empty(),
        },
        _ => Seq::empty(),
    }
}

fn string_items(items: &Vec<JsonValue>) -> (r: Vec<String>)
    ensures
        r.deep_view() == str_items(items@),
{
    let mut r: Vec<String> = Vec::new();
    let mut i: usize = 0;
    proof {
        assert(items@.skip(0) =~= items@);
        assert(r.deep_view() =~= Seq::<Seq<char>>::empty());
        assert(r.deep_view() + str_items(items@) =~= str_items(items@));
    }
    while i < items.len()
        invariant
            i <= items@.len(),
            str_items(items@) == r.deep_view() + str_items(items@.skip(i as int)),
        decreases items@.len() - i,
    {
        let ghost r0 = r.deep_view();
        proof {
            assert(items@.skip(i as int)[0] == items@[i as int]);
            assert(items@.skip(i as int).drop_first() =~= items@.skip(i + 1 as int));
        }
        match &items[i] {
            JsonValue::Str(s) => {
                r.push(s.clone());
                proof {
                    assert(r.deep_view() =~= r0.push(s@));
                    assert(r0 + (seq![s@] + str_items(items@.skip(i + 1 as int))) =~= r0.push(s@)
                        + str_items(items@.skip(i + 1 as int)));
                }
            },
            _ => {},
        }
        i += 1;
    }
    proof {
        assert(items@.skip(items@.len() as int) =~= Seq::<JsonValue>::empty());
        assert(r.deep_view() + Seq::<Seq<char>>::empty() =~= r.deep_view());
    }
    r
}

fn entry_of(v: &JsonValue) -> (r: Option<DigestEntry>)
    ensures
        match r {
            Some(e) => entry_of_spec(*v) == Some(e@),
            None => entry_of_spec(*v) is None,
        },
{
    match v {
        JsonValue::Obj(ms) => {
            let t = get_member(ms, "title");
            let su = get_member(ms, "summary");
            let c = get_member(ms, "category");
            match (t, su, c) {
                (
                    Some(JsonValue::Str(title)),
                    Some(JsonValue::Str(summary)),
                    Some(JsonValue::Str(category)),
                ) => {
                    if !(text::str_eq(category.as_str(), "Nacional") || text::str_eq(
                        category.as_str(),
                        "Desporto",
                    )) {
                        return None;
                    }
                    let sources = match get_member(ms, "sources") {
                        Some(JsonValue::Arr(items)) => string_items(items),
                        _ => {
                            let none: Vec<String> = Vec::new();
                            proof {
                                assert(none.deep_view() =~= Seq::<Seq<char>>::empty());
                            }
                            none
                        },
                    };
                    Some(
                        DigestEntry {
                            title: title.clone(),
                            summary: summary.clone(),
                            sources,
                            category: category.clone(),
                        },
                    )
                },
                _ => None,
            }
        },
        _ => None,
    }
}

/// Reads the digest entries out of a parsed payload; elements without the
/// entry shape are passed over.
pub fn digest_entries(v: &JsonValue) -> (r: Vec<DigestEntry>)
    ensures
        r.deep_view() == digest_of_spec(*v),
{
    match v {
        JsonValue::Obj(ms) => match get_member(ms, "digest") {
            Some(JsonValue::Arr(items)) => {
                let mut r: Vec<DigestEntry> = Vec::new();
                let mut i: usize = 0;
                proof {
                    assert(items@.skip(0) =~= items@);
                    assert(r.deep_view() =~= Seq::<DigestEntryV>::empty());
                    assert(r.deep_view() + entries_of_spec(items@) =~= entries_of_spec(items@));
                }
                while i < items.len()
                    invariant
                        i <= items@.len(),
                        entries_of_spec(items@) == r.deep_view() + entries_of_spec(
                            items@.skip(i as int),
                        ),
                    decreases items@.len() - i,
                {
                    let ghost r0 = r.deep_view();
                    proof {
                        assert(items@.skip(i as int)[0] == items@[i as int]);
                        assert(items@.skip(i as int).drop_first() =~= items@.skip(i + 1 as int));
                    }
                    match entry_of(&items[i]) {
                        Some(e) => {
                            let ghost ev = e@;
                            r.push(e);
                            proof {
                                assert(r.deep_view() =~= r0.push(ev));
                                assert(r0 + (seq![ev] + entries_of_spec(items@.skip(i + 1 as int)))
                                    =~= r0.push(ev) + entries_of_spec(items@.skip(i + 1 as int)));
                            }
                        },
                        None => {},
                    }
                    i += 1;
                }
                proof {
                    assert(items@.skip(items@.len() as int) =~= Seq::<JsonValue>::empty());
                    assert(r.deep_view() + Seq::<DigestEntryV>::empty() =~= r.deep_view());
                }
                r
            },
            _ => {
                let r: Vec<DigestEntry> = Vec::new();
                proof {
                    assert(r.deep_view() =~= Seq::<DigestEntryV>::empty());
                }
                r
            },
        },
        _ => {
            let r: Vec<DigestEntry> = Vec::new();
            proof {
                assert(r.deep_view() =~= Seq::<DigestEntryV>::empty());
            }
            r
        },
    }
}

/// The answered text without its code-fence markers and outer whitespace.
pub open spec fn clean_spec(s: Seq<char>) -> Seq<char> {
    text::trim_spec(text::remove_pat(text::remove_pat(s, "```json"@), "```"@))
}

/// Strips the code-fence markers an answer may wrap its JSON in, then trims.
pub fn clean_fences(s: &str) -> (r: String)
    ensures
        r@ == clean_spec(s@),
{
    let a = text::remove_pattern(s, "```json");
    let a_s = text::string_of(&a);
    let b = text::remove_pattern(a_s.as_str(), "```");
    let t = text::trim_vec(&b);
    text::string_of(&t)
}

/// Why a response yielded no digest.
#[derive(Debug)]
pub enum DigestError {
    /// The response body was not a JSON document.
    BodyNotJson,
    /// The answered text, cleaned of fences, was not a JSON document.
    PayloadNotJson,
}

/// Parses the answered text: cleaned of fences it must be a JSON document,
/// whose digest entries are returned.
pub fn digest_from_text(t: &str) -> (r: Result<Vec<DigestEntry>, DigestError>)
    ensures
        r is Err <==> !json_wf(clean_spec(t@)),
        r matches Err(e) ==> e == DigestError::PayloadNotJson,
        r matches Ok(es) ==> (parsed_json_of(clean_spec(t@)) matches Some(tree)
            && es.deep_view() == digest_of_spec(tree)),
{
    let cleaned = clean_fences(t);
    match parse_json(cleaned.as_str()) {
        Some(tree) => Ok(digest_entries(&tree)),
        None => Err(DigestError::PayloadNotJson),
    }
}

/// Parses a whole response body. A body that is not JSON is an error; an
/// envelope without answered text is an empty digest, as the endpoint answers
/// when it has nothing to say; answered text is cleaned and parsed as the
/// digest payload. No input aborts: every malformed response becomes an
/// error value.
pub fn parse_digest_response(body: &str) -> (r: Result<Vec<DigestEntry>, DigestError>)
    ensures
        (r matches Err(e) && e == DigestError::BodyNotJson) <==> !json_wf(body@),
        (json_wf(body@) && r is Err) ==> r == Err::<Vec<DigestEntry>, DigestError>(
            DigestError::PayloadNotJson,
        ),
        r matches Ok(es) ==> (parsed_json_of(body@) matches Some(tree) && (match envelope_text_spec(
            tree,
        ) {
            None => es.deep_view() == Seq::<DigestEntryV>::empty(),
            Some(t) => parsed_json_of(clean_spec(t)) matches Some(p) && es.deep_view()
                == digest_of_spec(p),
        })),
        json_wf(body@) ==> (match parsed_json_of(body@) {
            Some(tree) => match envelope_text_spec(tree) {
                Some(t) => (r is Err) <==> !json_wf(clean_spec(t)),
                None => r is Ok,
            },
            None => true,
        }),
{
    match parse_json(body) {
        None => Err(DigestError::BodyNotJson),
        Some(tree) => match envelope_text(&tree) {
            None => {
                let empty: Vec<DigestEntry> = Vec::new();
                proof {
                    assert(empty.deep_view() =~= Seq::<DigestEntryV>::empty());
                }
                Ok(empty)
            },
            Some(t) => match digest_from_text(t.as_str()) {
                Ok(es) => Ok(es),
                Err(_) => Err(DigestError::PayloadNotJson),
            },
        },
    }
}

/// The fixed instruction text that opens the digest prompt.
pub open spec fn prompt_header() -> Seq<char> {
    "Act as a professional news editor. Analyze these newspaper covers (from Portugal) and create a 'Daily News Digest'.\nYour goal is to identify the most important and common stories across these covers.\n\nInstructions:\n1. Aggregate the main stories. If multiple newspapers talk about the same topic, combine them into one entry.\n2. Separate stories into two main categories based on the source and content: 'Nacional' (General News) and 'Desporto' (Sports).\n3. For each story, provide:\n- 'title': A concise, engaging headline in Portuguese.\n- 'summary': A brief summary of the event (max 2 sentences) in Portuguese.\n- 'sources': A list of the Newspaper Names that feature this story.\n- 'category': Either 'Nacional' or 'Desporto'.\n\nThe input images correspond to the following newspapers:\n"@
}

/// The fixed instruction text that closes the digest prompt.
pub open spec fn prompt_footer() -> Seq<char> {
    "\nReturn ONLY a JSON object with this structure: { \"digest\": [ { \"title\": \"...\", \"summary\": \"...\", \"sources\": [\"...\"], \"category\": \"...\" } ] }"@
}

/// The numbered name list of the prompt, from position `i` on: each line is
/// the one-based position, a dot, the name, a line break.
pub open spec fn name_lines(names: Seq<Seq<char>>, i: int) -> Seq<char>
    decreases names.len() - i,
{
    if i < 0 || i >= names.len() {
        Seq::empty()
    } else {
        text::dec_str((i + 1) as nat) + ". "@ + names[i] + "\n"@ + name_lines(names, i + 1)
    }
}

/// The whole digest prompt for the given newspaper names.
pub open spec fn prompt_spec(names: Seq<Seq<char>>) -> Seq<char> {
    prompt_header() + name_lines(names, 0) + prompt_footer()
}

/// Builds the digest prompt: the fixed instructions around the numbered list
/// of newspaper names.
pub fn digest_prompt(names: &Vec<String>) -> (r: String)
    ensures
        r@ == prompt_spec(names.deep_view()),
{
    let ghost dv = names.deep_view();
    let mut out: Vec<char> = Vec::new();
    text::push_str_chars(
        "Act as a professional news editor. Analyze these newspaper covers (from Portugal) and create a 'Daily News Digest'.\nYour goal is to identify the most important and common stories across these covers.\n\nInstructions:\n1. Aggregate the main stories. If multiple newspapers talk about the same topic, combine them into one entry.\n2. Separate stories into two main categories based on the source and content: 'Nacional' (General News) and 'Desporto' (Sports).\n3. For each story, provide:\n- 'title': A concise, engaging headline in Portuguese.\n- 'summary': A brief summary of the event (max 2 sentences) in Portuguese.\n- 'sources': A list of the Newspaper Names that feature this story.\n- 'category': Either 'Nacional' or 'Desporto'.\n\nThe input images correspond to the following newspapers:\n",
        &mut out,
    );
    let mut i: usize = 0;
    proof {
        assert(out@ =~= prompt_header());
        assert(out@ + name_lines(dv, 0) =~= prompt_header() + name_lines(dv, 0));
    }
    while i < names.len()
        invariant
            dv == names.deep_view(),
            i <= names@.len(),
            dv.len() == names@.len(),
            prompt_header() + name_lines(dv, 0) == out@ + name_lines(dv, i as int),
        decreases names@.len() - i,
    {
        let ghost o0 = out@;
        let n: u64 = (i as u64) + 1;
        text::push_decimal(n, &mut out);
        text::push_str_chars(". ", &mut out);
        text::push_str_chars(names[i].as_str(), &mut out);
        text::push_str_chars("\n", &mut out);
        proof {
            assert(dv[i as int] == names@[i as int]@);
            assert(out@ =~= o0 + (text::dec_str((i + 1) as nat) + ". "@ + dv[i as int] + "\n"@));
            assert(o0 + (text::dec_str((i + 1) as nat) + ". "@ + dv[i as int] + "\n"@
                + name_lines(dv, i + 1)) =~= out@ + name_lines(dv, i + 1));
        }
        i += 1;
    }
    text::push_str_chars(
        "\nReturn ONLY a JSON object with this structure: { \"digest\": [ { \"title\": \"...\", \"summary\": \"...\", \"sources\": [\"...\"], \"category\": \"...\" } ] }",
        &mut out,
    );
    proof {
        assert(name_lines(dv, dv.len() as int) =~= Seq::<char>::empty());
        assert(out@ =~= prompt_spec(dv));
    }
    text::string_of(&out)
}

/// The fixed generative endpoint, up to the API key.
pub open spec fn digest_endpoint() -> Seq<char> {
    "https://generativelanguage.googleapis.com/v1beta/models/gemini-2.0-flash-exp:generateContent?key="@
}

/// The full endpoint URL for a given API key.
pub fn digest_url(api_key: &str) -> (r: String)
    ensures
        r@ == digest_endpoint() + api_key@,
{
    let mut out: Vec<char> = Vec::new();
    text::push_str_chars(
        "https://generativelanguage.googleapis.com/v1beta/models/gemini-2.0-flash-exp:generateContent?key=",
        &mut out,
    );
    text::push_str_chars(api_key, &mut out);
    text::string_of(&out)
}

/// The request part that carries the prompt text.
pub open spec fn text_part(p: Seq<char>) -> JsonV {
    JsonV::Obj(seq![("text"@, JsonV::Str(p))])
}

/// The request part that inlines one base64-encoded JPEG image.
pub open spec fn image_part(d: Seq<char>) -> JsonV {
    JsonV::Obj(
        seq![
            (
                "inline_data"@,
                JsonV::Obj(
                    seq![("mime_type"@, JsonV::Str("image/jpeg"@)), ("data"@, JsonV::Str(d))],
                ),
            ),
        ],
    )
}

/// The whole request body: the prompt part followed by one part per image.
pub open spec fn request_json(prompt: Seq<char>, imgs: Seq<Seq<char>>) -> JsonV {
    JsonV::Obj(
        seq![
            (
                "contents"@,
                JsonV::Arr(
                    seq![
                        JsonV::Obj(
                            seq![
                                (
                                    "parts"@,
                                    JsonV::Arr(
                                        seq![text_part(prompt)] + imgs.map_values(
                                            |d: Seq<char>| image_part(d),
                                        ),
                                    ),
                                ),
                            ],
                        ),
                    ],
                ),
            ),
        ],
    )
}

fn push_text_part(prompt: &str, out: &mut Vec<char>)
    ensures
        final(out)@ == old(out)@ + json_text(text_part(prompt@)),
{
    let ghost base = out@;
    let ghost ms = text_part(prompt@)->Obj_0;
    out.push('{');
    out.push('"');
    push_escaped("text", out);
    out.push('"');
    out.push(':');
    push_json_str(prompt, out);
    out.push('}');
    proof {
        assert(ms[0] == ("text"@, JsonV::Str(prompt@)));
        assert(members_upto(ms, 1) == member_text(ms[0]));
        assert(out@ =~= base + (seq!['{'] + members_upto(ms, 1) + seq!['}']));
    }
}

#[verifier::rlimit(60)]
fn push_image_part(data: &str, out: &mut Vec<char>)
    ensures
        final(out)@ == old(out)@ + json_text(image_part(data@)),
{
    let ghost base = out@;
    let ghost ms = image_part(data@)->Obj_0;
    let ghost inner = ms[0].1->Obj_0;
    out.push('{');
    out.push('"');
    push_escaped("inline_data", out);
    out.push('"');
    out.push(':');
    out.push('{');
    out.push('"');
    push_escaped("mime_type", out);
    out.push('"');
    out.push(':');
    push_json_str("image/jpeg", out);
    out.push(',');
    out.push('"');
    push_escaped("data", out);
    out.push('"');
    out.push(':');
    push_json_str(data, out);
    out.push('}');
    out.push('}');
    proof {
        assert(inner[0] == ("mime_type"@, JsonV::Str("image/jpeg"@)));
        assert(inner[1] == ("data"@, JsonV::Str(data@)));
        assert(members_upto(inner, 1) == member_text(inner[0]));
        assert(members_upto(inner, 2) == members_upto(inner, 1) + seq![','] + member_text(
            inner[1],
        ));
        assert(json_text(ms[0].1) == seq!['{'] + members_upto(inner, 2) + seq!['}']);
        assert(ms[0] == ("inline_data"@, ms[0].1));
        assert(members_upto(ms, 1) == member_text(ms[0]));
        assert(out@ =~= base + (seq!['{'] + members_upto(ms, 1) + seq!['}']));
        assert(json_text(image_part(data@)) == seq!['{'] + members_upto(ms, 1) + seq!['}']);
    }
}

/// Builds the request body for the generative endpoint: the prompt and the
/// base64 encoding of every image, framed as the endpoint expects them.
pub fn digest_request_body(prompt: &str, images: &Vec<Vec<u8>>) -> (r: String)
    ensures
        r@ == json_text(
            request_json(
                prompt@,
                images.deep_view().map_values(|b: Seq<u8>| base64_of(b)),
            ),
        ),
{
    let ghost imgs = images.deep_view().map_values(|b: Seq<u8>| base64_of(b));
    let ghost parts = seq![text_part(prompt@)] + imgs.map_values(|d: Seq<char>| image_part(d));
    let mut out: Vec<char> = Vec::new();
    out.push('{');
    out.push('"');
    push_escaped("contents", &mut out);
    out.push('"');
    out.push(':');
    out.push('[');
    out.push('{');
    out.push('"');
    push_escaped("parts", &mut out);
    out.push('"');
    out.push(':');
    out.push('[');
    let ghost arrbase = out@;
    push_text_part(prompt, &mut out);
    proof {
        assert(parts[0] == text_part(prompt@));
        assert(parts.len() == 1 + imgs.len());
        assert(items_upto(parts, 1) == json_text(parts[0]));
        assert(out@ =~= arrbase + items_upto(parts, 1));
    }
    let mut i: usize = 0;
    while i < images.len()
        invariant
            imgs == images.deep_view().map_values(|b: Seq<u8>| base64_of(b)),
            parts == seq![text_part(prompt@)] + imgs.map_values(|d: Seq<char>| image_part(d)),
            imgs.len() == images@.len(),
            parts.len() == 1 + imgs.len(),
            i <= images@.len(),
            out@ == arrbase + items_upto(parts, i + 1 as int),
        decreases images@.len() - i,
    {
        let ghost o0 = out@;
        out.push(',');
        let encoded = encode_base64(&images[i]);
        push_image_part(encoded.as_str(), &mut out);
        proof {
            assert(images.deep_view()[i as int] == images@[i as int].deep_view());
            assert(images@[i as int].deep_view() =~= images@[i as int]@);
            assert(imgs[i as int] == base64_of(images@[i as int]@));
            assert(encoded@ == imgs[i as int]);
            assert(parts[i + 1 as int] == image_part(imgs[i as int]));
            assert(items_upto(parts, i + 2 as int) == items_upto(parts, i + 1 as int) + seq![',']
                + json_text(parts[i + 1 as int]));
            assert(out@ =~= arrbase + items_upto(parts, i + 2 as int));
        }
        i += 1;
    }
    out.push(']');
    out.push('}');
    out.push(']');
    out.push('}');
    proof {
        let rj = request_json(prompt@, imgs);
        let ms = rj->Obj_0;
        let arr = ms[0].1->Arr_0;
        let inner_ms = arr[0]->Obj_0;
        assert(inner_ms[0] == ("parts"@, JsonV::Arr(parts)));
        assert(json_text(inner_ms[0].1) == seq!['['] + items_upto(parts, parts.len() as int)
            + seq![']']);
        assert(members_upto(inner_ms, 1) == member_text(inner_ms[0]));
        assert(json_text(arr[0]) == seq!['{'] + members_upto(inner_ms, 1) + seq!['}']);
        assert(items_upto(arr, 1) == json_text(arr[0]));
        assert(ms[0] == ("contents"@, JsonV::Arr(arr)));
        assert(json_text(ms[0].1) == seq!['['] + items_upto(arr, 1) + seq![']']);
        assert(members_upto(ms, 1) == member_text(ms[0]));
        assert(json_text(rj) == seq!['{'] + members_upto(ms, 1) + seq!['}']);
        assert(out@ =~= json_text(rj));
    }
    text::string_of(&out)
}

/// The JSON form of one digest entry.
pub open spec fn entry_json(e: DigestEntryV) -> JsonV {
    JsonV::Obj(
        seq![
            ("title"@, JsonV::Str(e.title)),
            ("summary"@, JsonV::Str(e.summary)),
            ("sources"@, JsonV::Arr(e.sources.map_values(|s: Seq<char>| JsonV::Str(s)))),
            ("category"@, JsonV::Str(e.category)),
        ],
    )
}

/// The JSON form of the digest artifact.
pub open spec fn digest_json(es: Seq<DigestEntryV>) -> JsonV {
    JsonV::Obj(seq![("digest"@, JsonV::Arr(es.map_values(|e: DigestEntryV| entry_json(e))))])
}

fn push_sources(sources: &Vec<String>, out: &mut Vec<char>)
    ensures
        final(out)@ == old(out)@ + json_text(
            JsonV::Arr(sources.deep_view().map_values(|s: Seq<char>| JsonV::Str(s))),
        ),
{
    let ghost items = sources.deep_view().map_values(|s: Seq<char>| JsonV::Str(s));
    let ghost base = out@;
    proof {
        assert(items.len() == sources.deep_view().len());
    }
    out.push('[');
    let mut i: usize = 0;
    while i < sources.len()
        invariant
            items == sources.deep_view().map_values(|s: Seq<char>| JsonV::Str(s)),
            items.len() == sources@.len(),
            i <= sources@.len(),
            out@ == base + seq!['['] + items_upto(items, i as int),
        decreases sources@.len() - i,
    {
        if i > 0 {
            out.push(',');
        }
        push_json_str(sources[i].as_str(), out);
        proof {
            assert(sources.deep_view()[i as int] == sources@[i as int]@);
            assert(items[i as int] == JsonV::Str(sources@[i as int]@));
            if i == 0 {
                assert(items_upto(items, 1) == json_text(items[0]));
                assert(out@ =~= base + seq!['['] + items_upto(items, 1));
            } else {
                assert(items_upto(items, i + 1 as int) == items_upto(items, i as int) + seq![',']
                    + json_text(items[i as int]));
                assert(out@ =~= base + seq!['['] + items_upto(items, i + 1 as int));
            }
        }
        i += 1;
    }
    out.push(']');
    proof {
        assert(out@ =~= base + (seq!['['] + items_upto(items, items.len() as int) + seq![']']));
    }
}

#[verifier::rlimit(60)]
fn push_entry(e: &DigestEntry, out: &mut Vec<char>)
    ensures
        final(out)@ == old(out)@ + json_text(entry_json(e@)),
{
    let ghost base = out@;
    let ghost ms = entry_json(e@)->Obj_0;
    out.push('{');
    out.push('"');
    push_escaped("title", out);
    out.push('"');
    out.push(':');
    push_json_str(e.title.as_str(), out);
    proof {
        assert(ms[0] == ("title"@, JsonV::Str(e.title@)));
        assert(members_upto(ms, 1) == member_text(ms[0]));
        assert(out@ =~= base + seq!['{'] + members_upto(ms, 1));
    }
    out.push(',');
    out.push('"');
    push_escaped("summary", out);
    out.push('"');
    out.push(':');
    push_json_str(e.summary.as_str(), out);
    proof {
        assert(ms[1] == ("summary"@, JsonV::Str(e.summary@)));
        assert(members_upto(ms, 2) == members_upto(ms, 1) + seq![','] + member_text(ms[1]));
        assert(out@ =~= base + seq!['{'] + members_upto(ms, 2));
    }
    out.push(',');
    out.push('"');
    push_escaped("sources", out);
    out.push('"');
    out.push(':');
    push_sources(&e.sources, out);
    proof {
        assert(ms[2] == (
            "sources"@,
            JsonV::Arr(e.sources.deep_view().map_values(|s: Seq<char>| JsonV::Str(s))),
        ));
        assert(members_upto(ms, 3) == members_upto(ms, 2) + seq![','] + member_text(ms[2]));
        assert(out@ =~= base + seq!['{'] + members_upto(ms, 3));
    }
    out.push(',');
    out.push('"');
    push_escaped("category", out);
    out.push('"');
    out.push(':');
    push_json_str(e.category.as_str(), out);
    out.push('}');
    proof {
        assert(ms[3] == ("category"@, JsonV::Str(e.category@)));
        assert(members_upto(ms, 4) == members_upto(ms, 3) + seq![','] + member_text(ms[3]));
        assert(out@ =~= base + (seq!['{'] + members_upto(ms, 4) + seq!['}']));
        assert(json_text(entry_json(e@)) == seq!['{'] + members_upto(ms, 4) + seq!['}']);
    }
}

/// The full text of the digest artifact for the given entries.
pub fn digest_json_string(es: &Vec<DigestEntry>) -> (r: String)
    ensures
        r@ == json_text(digest_json(es.deep_view())),
{
    let ghost items = es.deep_view().map_values(|e: DigestEntryV| entry_json(e));
    let ghost dj = digest_json(es.deep_view());
    let ghost ms = dj->Obj_0;
    let mut out: Vec<char> = Vec::new();
    out.push('{');
    out.push('"');
    push_escaped("digest", &mut out);
    out.push('"');
    out.push(':');
    out.push('[');
    let ghost arrbase = out@;
    proof {
        assert(items.len() == es.deep_view().len());
    }
    let mut i: usize = 0;
    while i < es.len()
        invariant
            items == es.deep_view().map_values(|e: DigestEntryV| entry_json(e)),
            items.len() == es@.len(),
            i <= es@.len(),
            out@ == arrbase + items_upto(items, i as int),
        decreases es@.len() - i,
    {
        if i > 0 {
            out.push(',');
        }
        push_entry(&es[i], &mut out);
        proof {
            assert(es.deep_view()[i as int] == es@[i as int]@);
            assert(items[i as int] == entry_json(es@[i as int]@));
            if i == 0 {
                assert(items_upto(items, 1) == json_text(items[0]));
                assert(out@ =~= arrbase + items_upto(items, 1));
            } else {
                assert(items_upto(items, i + 1 as int) == items_upto(items, i as int) + seq![',']
                    + json_text(items[i as int]));
                assert(out@ =~= arrbase + items_upto(items, i + 1 as int));
            }
        }
        i += 1;
    }
    out.push(']');
    out.push('}');
    proof {
        assert(ms[0] == ("digest"@, JsonV::Arr(items)));
        assert(json_text(ms[0].1) == seq!['['] + items_upto(items, items.len() as int)
            + seq![']']);
        assert(members_upto(ms, 1) == member_text(ms[0]));
        assert(json_text(dj) == seq!['{'] + members_upto(ms, 1) + seq!['}']);
        assert(out@ =~= json_text(dj));
    }
    text::string_of(&out)
}

} // verus!
