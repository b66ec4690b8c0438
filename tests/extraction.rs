use chat_expediente::extract::{extract_document_references, DocumentReference};
use regex::Regex;

const DOC: &str = "6835eb99f6f46cd38ee2c311";
const VER: &str = "6835eb99f6f46cd38ee2c312";

fn pairs(refs: &[DocumentReference]) -> Vec<(String, String)> {
    refs.iter().map(|r| (r.document_id.clone(), r.version_id.clone())).collect()
}

fn pair(d: &str, v: &str) -> (String, String) {
    (d.to_string(), v.to_string())
}

#[test]
fn bracketed_citation_yields_one_reference() {
    let text = "[Document ID: 6835eb99f6f46cd38ee2c311, Document Version ID: 6835eb99f6f46cd38ee2c312]";
    let refs = extract_document_references(text);
    assert_eq!(pairs(&refs), vec![pair(DOC, VER)]);
}

#[test]
fn two_bracketed_citations_in_order() {
    let text = "See [Document ID: aaaaaaaaaaaaaaaaaaaaaaa1, Document Version ID: bbbbbbbbbbbbbbbbbbbbbbb1] \
                and later [Documento ID: aaaaaaaaaaaaaaaaaaaaaaa2, Versión ID: bbbbbbbbbbbbbbbbbbbbbbb2].";
    let refs = extract_document_references(text);
    assert_eq!(
        pairs(&refs),
        vec![
            pair("aaaaaaaaaaaaaaaaaaaaaaa1", "bbbbbbbbbbbbbbbbbbbbbbb1"),
            pair("aaaaaaaaaaaaaaaaaaaaaaa2", "bbbbbbbbbbbbbbbbbbbbbbb2"),
        ]
    );
}

#[test]
fn standalone_document_lines_pair_with_themselves() {
    let text = "Here are the files.\nDocument ID: 111111111111111111111111\nSome words.\nDocument ID: 222222222222222222222222\n";
    let refs = extract_document_references(text);
    assert_eq!(
        pairs(&refs),
        vec![
            pair("111111111111111111111111", "111111111111111111111111"),
            pair("222222222222222222222222", "222222222222222222222222"),
        ]
    );
}

#[test]
fn line_citation_takes_version_from_following_lines() {
    let text = "Document ID: 111111111111111111111111\n\nnotes\nDocument Version ID: 333333333333333333333333\n";
    let refs = extract_document_references(text);
    assert_eq!(pairs(&refs), vec![pair("111111111111111111111111", "333333333333333333333333")]);
}

#[test]
fn line_citation_ignores_version_more_than_four_lines_away() {
    let text = "Document ID: 111111111111111111111111\na\nb\nc\nd\nVersion ID: 333333333333333333333333";
    let refs = extract_document_references(text);
    assert_eq!(pairs(&refs), vec![pair("111111111111111111111111", "111111111111111111111111")]);
}

#[test]
fn positional_fallback_pairs_by_position() {
    // Each document label reaches its token across a line break, so no line
    // holds a whole citation and no document token is followed by a version.
    let text = "Document ID:\n111111111111111111111111 then Version ID: 999999999999999999999999 x\n\
                Document ID:\n222222222222222222222222 y\nDocument ID:\n333333333333333333333333 z";
    let refs = extract_document_references(text);
    assert_eq!(
        pairs(&refs),
        vec![
            pair("111111111111111111111111", "999999999999999999999999"),
            pair("222222222222222222222222", "222222222222222222222222"),
            pair("333333333333333333333333", "333333333333333333333333"),
        ]
    );
}

#[test]
fn same_line_pairs_across_separators() {
    let text = "Document ID:\n111111111111111111111111 -, Version ID: 999999999999999999999999";
    let refs = extract_document_references(text);
    assert_eq!(pairs(&refs), vec![pair("111111111111111111111111", "999999999999999999999999")]);
}

#[test]
fn empty_and_plain_text_yield_nothing() {
    assert!(extract_document_references("").is_empty());
    assert!(extract_document_references("No citations here.\nNone at all.").is_empty());
}

#[test]
fn labels_match_in_any_case_and_language() {
    let text = "[ID DU DOCUMENT: ABCDEF012345678901234567; id de version du document: abcdef012345678901234568]";
    let refs = extract_document_references(text);
    assert_eq!(pairs(&refs), vec![pair("ABCDEF012345678901234567", "abcdef012345678901234568")]);
}

#[test]
fn bracket_must_close_on_the_same_line() {
    let text = "[Document ID: 111111111111111111111111, Version ID: 222222222222222222222222\n]";
    let refs = extract_document_references(text);
    // No bracketed citation; the line strategy looks for the version only on
    // the lines after the document's, so the document pairs with itself.
    assert_eq!(pairs(&refs), vec![pair("111111111111111111111111", "111111111111111111111111")]);
}

// The citation grammar as regular expressions, to compare against.
const DOC_LABELS: &str = r"(?:document\s+id|documentid|documento\s+id|documentoid|id\s+du\s+document|iddudocument)";
const VER_LABELS: &str = r"(?:document\s+version\s+id|documentversionid|version\s+id|versionid|documento\s+version\s+id|documentoversionid|versión\s+id|versionid|id\s+de\s+version\s+du\s+document|iddeversiondudocument|id\s+de\s+version|iddeversion)";

struct Patterns {
    bracket: Regex,
    doc: Regex,
    ver: Regex,
    same: Regex,
}

fn patterns() -> Patterns {
    let bracket = Regex::new(&format!(
        r"(?i)\[(?:.*?)?{}:\s*([a-f0-9]{{24}})(?:.*?){}:\s*([a-f0-9]{{24}})(?:.*?)?\]",
        DOC_LABELS, VER_LABELS
    ))
    .unwrap();
    let doc = Regex::new(&format!(r"(?i){}:\s*([a-f0-9]{{24}})", DOC_LABELS)).unwrap();
    let ver = Regex::new(&format!(r"(?i){}:\s*([a-f0-9]{{24}})", VER_LABELS)).unwrap();
    let same = Regex::new(&format!(
        r"(?i){}:\s*([a-f0-9]{{24}})(?:\s*[-,\s]+\s*{}:\s*([a-f0-9]{{24}}))",
        DOC_LABELS, VER_LABELS
    ))
    .unwrap();
    Patterns { bracket, doc, ver, same }
}

fn regex_references(p: &Patterns, text: &str) -> Vec<(String, String)> {
    let (bracket, doc, ver, same) = (&p.bracket, &p.doc, &p.ver, &p.same);
    let mut out: Vec<(String, String)> = bracket
        .captures_iter(text)
        .map(|c| (c[1].to_string(), c[2].to_string()))
        .collect();
    if !out.is_empty() {
        return out;
    }
    let lines: Vec<&str> = text.lines().collect();
    for i in 0..lines.len() {
        if let Some(d) = doc.captures(lines[i]) {
            let d = d[1].to_string();
            let mut v = d.clone();
            for j in (i + 1)..std::cmp::min(i + 5, lines.len()) {
                if let Some(c) = ver.captures(lines[j]) {
                    v = c[1].to_string();
                    break;
                }
            }
            out.push((d, v));
        }
    }
    if !out.is_empty() {
        return out;
    }
    out = same.captures_iter(text).map(|c| (c[1].to_string(), c[2].to_string())).collect();
    if !out.is_empty() {
        return out;
    }
    let ds: Vec<String> = doc.captures_iter(text).map(|c| c[1].to_string()).collect();
    let vs: Vec<String> = ver.captures_iter(text).map(|c| c[1].to_string()).collect();
    ds.iter()
        .enumerate()
        .map(|(i, d)| (d.clone(), if i < vs.len() { vs[i].clone() } else { d.clone() }))
        .collect()
}

fn next(state: &mut u64) -> u64 {
    *state ^= *state << 13;
    *state ^= *state >> 7;
    *state ^= *state << 17;
    *state
}

const PIECES: &[&str] = &[
    "Document ID:", "document  id: ", "DOCUMENTID:", "Documento ID:\t", "documentoid:", "ID du document:",
    "iddudocument:", "Document Version ID:", "Version ID: ", "versionid:", "Documento Version ID:",
    "Versión ID:", "VERSIÓN id:", "ID de version du document:", "id de version:", "iddeversion:",
    "docuſent id:", "ſomething", "[", "]", "\n", "\r\n", " ", ", ", " - ", "\t", "x", "notes",
    "0123456789abcdef01234567", "ABCDEF0123456789abcdef01", "fedcba9876543210fedcba98",
    "0123456789abcdef0123", "0123456789abcdef0123456789", "Document\nID:", "Version\u{a0}ID:", ":",
];

#[test]
fn agrees_with_the_regular_expressions() {
    let p = patterns();
    let mut state: u64 = 0x9e3779b97f4a7c15;
    for _ in 0..1500 {
        let n = (next(&mut state) % 14) as usize + 1;
        let mut text = String::new();
        for _ in 0..n {
            let piece = PIECES[(next(&mut state) % PIECES.len() as u64) as usize];
            text.push_str(piece);
        }
        let ours = pairs(&extract_document_references(&text));
        assert_eq!(ours, regex_references(&p, &text), "text: {:?}", text);
    }
}
