//! Recovery of document citations from free model text.
//!
//! A citation names a document by a label ("Document ID", "Documento ID",
//! "ID du document", ...) followed by `:`, optional whitespace and a token of
//! 24 hexadecimal digits; a version is named the same way with its own labels.
//! Label letters match case-insensitively, and a space inside a label stands
//! for a run of one or more whitespace characters.
//!
//! Four strategies are tried in a fixed order, and the first one that finds
//! anything decides the result:
//!   1. a bracketed span holding a document label and then a version label;
//!   2. a line with a document label, paired with the first version label of
//!      the next four lines (or with itself);
//!   3. a document label followed by separators and a version label;
//!   4. all document tokens and all version tokens, paired by position.
use vstd::prelude::*;
use crate::text::{chars_of, string_from_chars};

verus! {

/// A reference as plain values: (document id, version id).
pub type RefView = (Seq<char>, Seq<char>);

/// A document reference recovered from a reply.
pub struct DocumentReference {
    pub document_id: String,
    pub version_id: String,
}

impl View for DocumentReference {
    type V = RefView;

    open spec fn view(&self) -> RefView {
        (self.document_id@, self.version_id@)
    }
}

/// The views of a sequence of references.
pub open spec fn refs_view(v: Seq<DocumentReference>) -> Seq<RefView> {
    v.map_values(|r: DocumentReference| r@)
}

/// The character sequences of a list of character vectors.
pub open spec fn chars_view(v: Seq<Vec<char>>) -> Seq<Seq<char>> {
    v.map_values(|w: Vec<char>| w@)
}

/// The views of a sequence of strings.
pub open spec fn strings_view(v: Seq<String>) -> Seq<Seq<char>> {
    v.map_values(|s: String| s@)
}

// ---------------------------------------------------------------------------
// Characters

/// Unicode `White_Space`: the characters that `\s` stands for.
pub open spec fn is_space(c: char) -> bool {
    let u = c as u32;
    (0x09 <= u <= 0x0d) || u == 0x20 || u == 0x85 || u == 0xa0 || u == 0x1680 || (0x2000 <= u
        <= 0x200a) || u == 0x2028 || u == 0x2029 || u == 0x202f || u == 0x205f || u == 0x3000
}

/// A hexadecimal digit, in either case.
pub open spec fn is_hex_digit(c: char) -> bool {
    let u = c as u32;
    (0x30 <= u <= 0x39) || (0x61 <= u <= 0x66) || (0x41 <= u <= 0x46)
}

/// Whether the text character `c` matches the label character `l` when case
/// is ignored (simple Unicode case folding, for the letters labels use).
pub open spec fn folds_to(c: char, l: char) -> bool {
    let (cu, lu) = (c as u32, l as u32);
    ||| cu == lu
    ||| (0x61 <= lu <= 0x7a && cu + 32 == lu)
    ||| (l == 's' && cu == 0x17f)
    ||| (l == 'k' && cu == 0x212a)
    ||| (lu == 0xf3 && cu == 0xd3)
}

/// Whether `c` is whitespace (see `is_space`).
pub fn is_space_exec(c: char) -> (r: bool)
    ensures
        r == is_space(c),
{
    let u = c as u32;
    (0x09 <= u && u <= 0x0d) || u == 0x20 || u == 0x85 || u == 0xa0 || u == 0x1680 || (0x2000 <= u
        && u <= 0x200a) || u == 0x2028 || u == 0x2029 || u == 0x202f || u == 0x205f || u == 0x3000
}

fn is_hex_digit_exec(c: char) -> (r: bool)
    ensures
        r == is_hex_digit(c),
{
    let u = c as u32;
    (0x30 <= u && u <= 0x39) || (0x61 <= u && u <= 0x66) || (0x41 <= u && u <= 0x46)
}

fn folds_to_exec(c: char, l: char) -> (r: bool)
    ensures
        r == folds_to(c, l),
{
    let cu = c as u32;
    let lu = l as u32;
    cu == lu || (0x61 <= lu && lu <= 0x7a && cu + 32 == lu) || (l == 's' && cu == 0x17f) || (l
        == 'k' && cu == 0x212a) || (lu == 0xf3 && cu == 0xd3)
}

// ---------------------------------------------------------------------------
// Labels and tokens

/// The labels that introduce a document id.
pub open spec fn document_labels() -> Seq<Seq<char>> {
    seq![
        "document id"@,
        "documentid"@,
        "documento id"@,
        "documentoid"@,
        "id du document"@,
        "iddudocument"@,
    ]
}

/// The labels that introduce a version id, in the order they are tried.
pub open spec fn version_labels() -> Seq<Seq<char>> {
    seq![
        "document version id"@,
        "documentversionid"@,
        "version id"@,
        "versionid"@,
        "documento version id"@,
        "documentoversionid"@,
        "versión id"@,
        "versionid"@,
        "id de version du document"@,
        "iddeversiondudocument"@,
        "id de version"@,
        "iddeversion"@,
    ]
}

fn document_labels_exec() -> (r: Vec<Vec<char>>)
    ensures
        chars_view(r@) == document_labels(),
{
    let r = vec![
        chars_of("document id"),
        chars_of("documentid"),
        chars_of("documento id"),
        chars_of("documentoid"),
        chars_of("id du document"),
        chars_of("iddudocument"),
    ];
    assert(chars_view(r@) =~= document_labels());
    r
}

fn version_labels_exec() -> (r: Vec<Vec<char>>)
    ensures
        chars_view(r@) == version_labels(),
{
    let r = vec![
        chars_of("document version id"),
        chars_of("documentversionid"),
        chars_of("version id"),
        chars_of("versionid"),
        chars_of("documento version id"),
        chars_of("documentoversionid"),
        chars_of("versión id"),
        chars_of("versionid"),
        chars_of("id de version du document"),
        chars_of("iddeversiondudocument"),
        chars_of("id de version"),
        chars_of("iddeversion"),
    ];
    assert(chars_view(r@) =~= version_labels());
    r
}

/// The end of the run of whitespace that starts at `p`.
pub open spec fn space_run_end(s: Seq<char>, p: int) -> int
    decreases s.len() - p,
{
    if 0 <= p < s.len() && is_space(s[p]) {
        space_run_end(s, p + 1)
    } else {
        p
    }
}

/// Where the label `pat`, from its `i`-th character on, ends when matched at
/// `p`; a space in the label takes a non-empty run of whitespace.
pub open spec fn label_end(s: Seq<char>, p: int, pat: Seq<char>, i: int) -> Option<int>
    decreases pat.len() - i,
{
    if i >= pat.len() {
        Some(p)
    } else if pat[i] == ' ' {
        let e = space_run_end(s, p);
        if e > p {
            label_end(s, e, pat, i + 1)
        } else {
            None
        }
    } else if 0 <= p < s.len() && folds_to(s[p], pat[i]) {
        label_end(s, p + 1, pat, i + 1)
    } else {
        None
    }
}

/// 24 hexadecimal digits start at `h`.
pub open spec fn hex_token_at(s: Seq<char>, h: int) -> bool {
    &&& 0 <= h
    &&& h + 24 <= s.len()
    &&& forall|k: int| h <= k < h + 24 ==> is_hex_digit(#[trigger] s[k])
}

/// Where the token starts when `label`, `:`, whitespace and a token match at `p`.
pub open spec fn token_after_label(s: Seq<char>, p: int, label: Seq<char>) -> Option<int> {
    match label_end(s, p, label, 0) {
        Some(e) => if 0 <= e < s.len() && s[e] == ':' && hex_token_at(s, space_run_end(s, e + 1)) {
            Some(space_run_end(s, e + 1))
        } else {
            None
        },
        None => None,
    }
}

/// Where the token starts for the first of `labels` (from the `k`-th) that
/// matches at `p` with its token.
pub open spec fn labelled_token(s: Seq<char>, p: int, labels: Seq<Seq<char>>, k: int) -> Option<
    int,
>
    decreases labels.len() - k,
{
    if k >= labels.len() {
        None
    } else {
        match token_after_label(s, p, labels[k]) {
            Some(h) => Some(h),
            None => labelled_token(s, p, labels, k + 1),
        }
    }
}

/// The 24 characters of the token that starts at `h`.
pub open spec fn token(s: Seq<char>, h: int) -> Seq<char> {
    s.subrange(h, h + 24)
}

/// The tokens of all successive non-overlapping labelled matches from `p` on.
pub open spec fn tokens_from(s: Seq<char>, p: int, labels: Seq<Seq<char>>) -> Seq<Seq<char>>
    decreases s.len() - p,
{
    if p < 0 || p >= s.len() {
        seq![]
    } else {
        match labelled_token(s, p, labels, 0) {
            Some(h) => {
                proof {
                    lemma_labelled_token_bounds(s, p, labels, 0);
                }
                seq![token(s, h)] + tokens_from(s, h + 24, labels)
            },
            None => tokens_from(s, p + 1, labels),
        }
    }
}

pub proof fn lemma_space_run_end_bounds(s: Seq<char>, p: int)
    ensures
        space_run_end(s, p) >= p,
        0 <= p <= s.len() ==> space_run_end(s, p) <= s.len(),
    decreases s.len() - p,
{
    if 0 <= p < s.len() && is_space(s[p]) {
        lemma_space_run_end_bounds(s, p + 1);
    }
}

pub proof fn lemma_label_end_bounds(s: Seq<char>, p: int, pat: Seq<char>, i: int)
    ensures
        label_end(s, p, pat, i) matches Some(e) ==> e >= p && (0 <= p <= s.len() ==> e <= s.len()),
    decreases pat.len() - i,
{
    if i < pat.len() {
        if pat[i] == ' ' {
            lemma_space_run_end_bounds(s, p);
            lemma_label_end_bounds(s, space_run_end(s, p), pat, i + 1);
        } else {
            lemma_label_end_bounds(s, p + 1, pat, i + 1);
        }
    }
}

pub proof fn lemma_labelled_token_bounds(s: Seq<char>, p: int, labels: Seq<Seq<char>>, k: int)
    ensures
        labelled_token(s, p, labels, k) matches Some(h) ==> p < h && hex_token_at(s, h),
    decreases labels.len() - k,
{
    if k < labels.len() {
        lemma_label_end_bounds(s, p, labels[k], 0);
        if let Some(e) = label_end(s, p, labels[k], 0) {
            lemma_space_run_end_bounds(s, e + 1);
        }
        lemma_labelled_token_bounds(s, p, labels, k + 1);
    }
}

fn space_run_end_exec(t: &Vec<char>, p: usize) -> (r: usize)
    requires
        p <= t@.len(),
    ensures
        r as int == space_run_end(t@, p as int),
{
    let mut q = p;
    while q < t.len() && is_space_exec(t[q])
        invariant
            p <= q <= t@.len(),
            space_run_end(t@, q as int) == space_run_end(t@, p as int),
        decreases t@.len() - q,
    {
        q = q + 1;
    }
    q
}

fn label_end_exec(t: &Vec<char>, p: usize, pat: &Vec<char>) -> (r: Option<usize>)
    requires
        p <= t@.len(),
    ensures
        match r {
            Some(e) => label_end(t@, p as int, pat@, 0) == Some(e as int),
            None => label_end(t@, p as int, pat@, 0) is None,
        },
{
    let mut q = p;
    let mut i: usize = 0;
    while i < pat.len()
        invariant
            p <= q <= t@.len(),
            i <= pat@.len(),
            label_end(t@, q as int, pat@, i as int) == label_end(t@, p as int, pat@, 0),
        decreases pat@.len() - i,
    {
        if pat[i] == ' ' {
            let e = space_run_end_exec(t, q);
            if e > q {
                proof {
                    lemma_space_run_end_bounds(t@, q as int);
                }
                q = e;
            } else {
                return None;
            }
        } else if q < t.len() && folds_to_exec(t[q], pat[i]) {
            q = q + 1;
        } else {
            return None;
        }
        i = i + 1;
    }
    Some(q)
}

fn hex_token_at_exec(t: &Vec<char>, h: usize) -> (r: bool)
    ensures
        r == hex_token_at(t@, h as int),
{
    if h > t.len() || t.len() - h < 24 {
        return false;
    }
    let mut k = h;
    let end = h + 24;
    while k < end
        invariant
            h <= k <= end,
            end == h + 24 <= t@.len(),
            forall|j: int| h <= j < k ==> is_hex_digit(#[trigger] t@[j]),
        decreases end - k,
    {
        if !is_hex_digit_exec(t[k]) {
            return false;
        }
        k = k + 1;
    }
    true
}

fn token_after_label_exec(t: &Vec<char>, p: usize, label: &Vec<char>) -> (r: Option<usize>)
    requires
        p <= t@.len(),
    ensures
        match r {
            Some(h) => token_after_label(t@, p as int, label@) == Some(h as int),
            None => token_after_label(t@, p as int, label@) is None,
        },
{
    match label_end_exec(t, p, label) {
        Some(e) => {
            proof {
                lemma_label_end_bounds(t@, p as int, label@, 0);
            }
            if e < t.len() && t[e] == ':' {
                let h = space_run_end_exec(t, e + 1);
                if hex_token_at_exec(t, h) {
                    Some(h)
                } else {
                    None
                }
            } else {
                None
            }
        },
        None => None,
    }
}

fn labelled_token_exec(t: &Vec<char>, p: usize, labels: &Vec<Vec<char>>) -> (r: Option<usize>)
    requires
        p <= t@.len(),
    ensures
        match r {
            Some(h) => labelled_token(t@, p as int, chars_view(labels@), 0) == Some(h as int),
            None => labelled_token(t@, p as int, chars_view(labels@), 0) is None,
        },
{
    let ghost ls = chars_view(labels@);
    let mut k: usize = 0;
    while k < labels.len()
        invariant
            p <= t@.len(),
            k <= labels@.len(),
            ls == chars_view(labels@),
            labelled_token(t@, p as int, ls, k as int) == labelled_token(t@, p as int, ls, 0),
        decreases labels@.len() - k,
    {
        assert(ls[k as int] == labels@[k as int]@);
        match token_after_label_exec(t, p, &labels[k]) {
            Some(h) => {
                return Some(h);
            },
            None => {},
        }
        k = k + 1;
    }
    None
}

fn token_string(t: &Vec<char>, h: usize) -> (r: String)
    requires
        hex_token_at(t@, h as int),
    ensures
        r@ == token(t@, h as int),
{
    let mut v: Vec<char> = Vec::new();
    let mut k = h;
    let n = t.len();
    assert(h + 24 <= n);
    let end = h + 24;
    while k < end
        invariant
            h <= k <= end,
            end == h + 24 <= t@.len(),
            v@ == t@.subrange(h as int, k as int),
        decreases end - k,
    {
        v.push(t[k]);
        k = k + 1;
    }
    string_from_chars(&v)
}

fn tokens_exec(t: &Vec<char>, labels: &Vec<Vec<char>>) -> (r: Vec<String>)
    ensures
        strings_view(r@) == tokens_from(t@, 0, chars_view(labels@)),
{
    let ghost ls = chars_view(labels@);
    let mut out: Vec<String> = Vec::new();
    let mut p: usize = 0;
    while p < t.len()
        invariant
            p <= t@.len(),
            ls == chars_view(labels@),
            strings_view(out@) + tokens_from(t@, p as int, ls) == tokens_from(t@, 0, ls),
        decreases t@.len() - p,
    {
        match labelled_token_exec(t, p, labels) {
            Some(h) => {
                proof {
                    lemma_labelled_token_bounds(t@, p as int, ls, 0);
                }
                let s = token_string(t, h);
                proof {
                    assert(strings_view(out@.push(s)) =~= strings_view(out@).push(s@));
                }
                out.push(s);
                p = h + 24;
            },
            None => {
                p = p + 1;
            },
        }
    }
    proof {
        assert(strings_view(out@) + seq![] =~= strings_view(out@));
    }
    out
}


// ---------------------------------------------------------------------------
// Bracketed citations

/// The first `]` from `q` on, before any line break.
pub open spec fn closing_bracket(s: Seq<char>, q: int) -> Option<int>
    decreases s.len() - q,
{
    if q < 0 || q >= s.len() {
        None
    } else if s[q] == ']' {
        Some(q)
    } else if s[q] == '\n' {
        None
    } else {
        closing_bracket(s, q + 1)
    }
}

/// The first version label from `q` on, before any line break, whose token
/// is followed on its line by a `]`: (token start, bracket position).
pub open spec fn version_then_close(s: Seq<char>, q: int) -> Option<(int, int)>
    decreases s.len() - q,
{
    if q < 0 || q >= s.len() {
        None
    } else {
        let here = match labelled_token(s, q, version_labels(), 0) {
            Some(h) => match closing_bracket(s, h + 24) {
                Some(c) => Some((h, c)),
                None => None,
            },
            None => None,
        };
        if here is Some {
            here
        } else if s[q] == '\n' {
            None
        } else {
            version_then_close(s, q + 1)
        }
    }
}

/// The first document label from `q` on, before any line break, that the
/// rest of a bracketed citation follows: (document token, version token,
/// bracket position).
pub open spec fn citation_from(s: Seq<char>, q: int) -> Option<(int, int, int)>
    decreases s.len() - q,
{
    if q < 0 || q >= s.len() {
        None
    } else {
        let here = match labelled_token(s, q, document_labels(), 0) {
            Some(d) => match version_then_close(s, d + 24) {
                Some((v, c)) => Some((d, v, c)),
                None => None,
            },
            None => None,
        };
        if here is Some {
            here
        } else if s[q] == '\n' {
            None
        } else {
            citation_from(s, q + 1)
        }
    }
}

/// A bracketed citation that opens at `p`.
pub open spec fn bracketed_at(s: Seq<char>, p: int) -> Option<(int, int, int)> {
    if 0 <= p < s.len() && s[p] == '[' {
        citation_from(s, p + 1)
    } else {
        None
    }
}

/// All successive bracketed citations from `p` on.
pub open spec fn bracketed_from(s: Seq<char>, p: int) -> Seq<RefView>
    decreases s.len() - p,
{
    if p < 0 || p >= s.len() {
        seq![]
    } else {
        match bracketed_at(s, p) {
            Some((d, v, c)) => {
                proof {
                    lemma_bracketed_at_bounds(s, p);
                }
                seq![(token(s, d), token(s, v))] + bracketed_from(s, c + 1)
            },
            None => bracketed_from(s, p + 1),
        }
    }
}

pub proof fn lemma_closing_bracket_bounds(s: Seq<char>, q: int)
    ensures
        closing_bracket(s, q) matches Some(c) ==> q <= c < s.len(),
    decreases s.len() - q,
{
    if 0 <= q < s.len() && s[q] != ']' && s[q] != '\n' {
        lemma_closing_bracket_bounds(s, q + 1);
    }
}

pub proof fn lemma_version_then_close_bounds(s: Seq<char>, q: int)
    ensures
        version_then_close(s, q) matches Some((v, c)) ==> q < v && hex_token_at(s, v) && v + 24
            <= c < s.len(),
    decreases s.len() - q,
{
    if 0 <= q < s.len() {
        lemma_labelled_token_bounds(s, q, version_labels(), 0);
        if let Some(h) = labelled_token(s, q, version_labels(), 0) {
            lemma_closing_bracket_bounds(s, h + 24);
        }
        lemma_version_then_close_bounds(s, q + 1);
    }
}

pub proof fn lemma_citation_from_bounds(s: Seq<char>, q: int)
    ensures
        citation_from(s, q) matches Some((d, v, c)) ==> q < d < v && hex_token_at(s, d) && hex_token_at(
            s,
            v,
        ) && v + 24 <= c < s.len(),
    decreases s.len() - q,
{
    if 0 <= q < s.len() {
        lemma_labelled_token_bounds(s, q, document_labels(), 0);
        if let Some(d) = labelled_token(s, q, document_labels(), 0) {
            lemma_version_then_close_bounds(s, d + 24);
        }
        lemma_citation_from_bounds(s, q + 1);
    }
}

pub proof fn lemma_bracketed_at_bounds(s: Seq<char>, p: int)
    ensures
        bracketed_at(s, p) matches Some((d, v, c)) ==> p < d && hex_token_at(s, d) && hex_token_at(
            s,
            v,
        ) && p < c < s.len(),
{
    lemma_citation_from_bounds(s, p + 1);
}

fn closing_bracket_exec(t: &Vec<char>, q: usize) -> (r: Option<usize>)
    requires
        q <= t@.len(),
    ensures
        match r {
            Some(c) => closing_bracket(t@, q as int) == Some(c as int),
            None => closing_bracket(t@, q as int) is None,
        },
{
    let mut i = q;
    while i < t.len()
        invariant
            q <= i <= t@.len(),
            closing_bracket(t@, i as int) == closing_bracket(t@, q as int),
        decreases t@.len() - i,
    {
        if t[i] == ']' {
            return Some(i);
        } else if t[i] == '\n' {
            return None;
        }
        i = i + 1;
    }
    None
}

fn version_then_close_exec(t: &Vec<char>, q: usize, versions: &Vec<Vec<char>>) -> (r: Option<
    (usize, usize),
>)
    requires
        q <= t@.len(),
        chars_view(versions@) == version_labels(),
    ensures
        match r {
            Some((v, c)) => version_then_close(t@, q as int) == Some((v as int, c as int)),
            None => version_then_close(t@, q as int) is None,
        },
{
    let mut i = q;
    while i < t.len()
        invariant
            q <= i <= t@.len(),
            chars_view(versions@) == version_labels(),
            version_then_close(t@, i as int) == version_then_close(t@, q as int),
        decreases t@.len() - i,
    {
        if let Some(h) = labelled_token_exec(t, i, versions) {
            proof {
                lemma_labelled_token_bounds(t@, i as int, version_labels(), 0);
            }
            if let Some(c) = closing_bracket_exec(t, h + 24) {
                return Some((h, c));
            }
        }
        if t[i] == '\n' {
            return None;
        }
        i = i + 1;
    }
    None
}

fn citation_from_exec(
    t: &Vec<char>,
    q: usize,
    documents: &Vec<Vec<char>>,
    versions: &Vec<Vec<char>>,
) -> (r: Option<(usize, usize, usize)>)
    requires
        q <= t@.len(),
        chars_view(documents@) == document_labels(),
        chars_view(versions@) == version_labels(),
    ensures
        match r {
            Some((d, v, c)) => citation_from(t@, q as int) == Some((d as int, v as int, c as int)),
            None => citation_from(t@, q as int) is None,
        },
{
    let mut i = q;
    while i < t.len()
        invariant
            q <= i <= t@.len(),
            chars_view(documents@) == document_labels(),
            chars_view(versions@) == version_labels(),
            citation_from(t@, i as int) == citation_from(t@, q as int),
        decreases t@.len() - i,
    {
        if let Some(d) = labelled_token_exec(t, i, documents) {
            proof {
                lemma_labelled_token_bounds(t@, i as int, document_labels(), 0);
            }
            if let Some((v, c)) = version_then_close_exec(t, d + 24, versions) {
                return Some((d, v, c));
            }
        }
        if t[i] == '\n' {
            return None;
        }
        i = i + 1;
    }
    None
}

fn bracketed_exec(t: &Vec<char>, documents: &Vec<Vec<char>>, versions: &Vec<Vec<char>>) -> (r: Vec<
    DocumentReference,
>)
    requires
        chars_view(documents@) == document_labels(),
        chars_view(versions@) == version_labels(),
    ensures
        refs_view(r@) == bracketed_from(t@, 0),
{
    let mut out: Vec<DocumentReference> = Vec::new();
    let mut p: usize = 0;
    while p < t.len()
        invariant
            p <= t@.len(),
            chars_view(documents@) == document_labels(),
            chars_view(versions@) == version_labels(),
            refs_view(out@) + bracketed_from(t@, p as int) == bracketed_from(t@, 0),
        decreases t@.len() - p,
    {
        let mut found: Option<(usize, usize, usize)> = None;
        if t[p] == '[' {
            found = citation_from_exec(t, p + 1, documents, versions);
        }
        assert(match found {
            Some((d, v, c)) => bracketed_at(t@, p as int) == Some((d as int, v as int, c as int)),
            None => bracketed_at(t@, p as int) is None,
        });
        match found {
            Some((d, v, c)) => {
                proof {
                    lemma_bracketed_at_bounds(t@, p as int);
                }
                let reference = DocumentReference {
                    document_id: token_string(t, d),
                    version_id: token_string(t, v),
                };
                proof {
                    assert(refs_view(out@.push(reference)) =~= refs_view(out@).push(reference@));
                }
                out.push(reference);
                p = c + 1;
            },
            None => {
                p = p + 1;
            },
        }
    }
    proof {
        assert(refs_view(out@) + seq![] =~= refs_view(out@));
    }
    out
}

// ---------------------------------------------------------------------------
// A document label, separators, a version label

/// A separator between the two halves of a paired citation.
pub open spec fn is_separator(c: char) -> bool {
    c == '-' || c == ',' || is_space(c)
}

/// The end of the run of separators that starts at `q`.
pub open spec fn separator_run_end(s: Seq<char>, q: int) -> int
    decreases s.len() - q,
{
    if 0 <= q < s.len() && is_separator(s[q]) {
        separator_run_end(s, q + 1)
    } else {
        q
    }
}

/// A document label and token at `p`, then separators, then a version label
/// and token: (document token, version token).
pub open spec fn paired_at(s: Seq<char>, p: int) -> Option<(int, int)> {
    match labelled_token(s, p, document_labels(), 0) {
        Some(d) => {
            let e = separator_run_end(s, d + 24);
            if e > d + 24 {
                match labelled_token(s, e, version_labels(), 0) {
                    Some(v) => Some((d, v)),
                    None => None,
                }
            } else {
                None
            }
        },
        None => None,
    }
}

/// All successive paired citations from `p` on.
pub open spec fn paired_from(s: Seq<char>, p: int) -> Seq<RefView>
    decreases s.len() - p,
{
    if p < 0 || p >= s.len() {
        seq![]
    } else {
        match paired_at(s, p) {
            Some((d, v)) => {
                proof {
                    lemma_paired_at_bounds(s, p);
                }
                seq![(token(s, d), token(s, v))] + paired_from(s, v + 24)
            },
            None => paired_from(s, p + 1),
        }
    }
}

pub proof fn lemma_separator_run_end_bounds(s: Seq<char>, q: int)
    ensures
        separator_run_end(s, q) >= q,
        0 <= q <= s.len() ==> separator_run_end(s, q) <= s.len(),
    decreases s.len() - q,
{
    if 0 <= q < s.len() && is_separator(s[q]) {
        lemma_separator_run_end_bounds(s, q + 1);
    }
}

pub proof fn lemma_paired_at_bounds(s: Seq<char>, p: int)
    ensures
        paired_at(s, p) matches Some((d, v)) ==> p < d && hex_token_at(s, d) && d < v
            && hex_token_at(s, v),
{
    lemma_labelled_token_bounds(s, p, document_labels(), 0);
    if let Some(d) = labelled_token(s, p, document_labels(), 0) {
        let e = separator_run_end(s, d + 24);
        lemma_labelled_token_bounds(s, e, version_labels(), 0);
    }
}

fn separator_run_end_exec(t: &Vec<char>, q: usize) -> (r: usize)
    requires
        q <= t@.len(),
    ensures
        r as int == separator_run_end(t@, q as int),
{
    let mut i = q;
    while i < t.len() && (t[i] == '-' || t[i] == ',' || is_space_exec(t[i]))
        invariant
            q <= i <= t@.len(),
            separator_run_end(t@, i as int) == separator_run_end(t@, q as int),
        decreases t@.len() - i,
    {
        i = i + 1;
    }
    i
}

fn paired_exec(t: &Vec<char>, documents: &Vec<Vec<char>>, versions: &Vec<Vec<char>>) -> (r: Vec<
    DocumentReference,
>)
    requires
        chars_view(documents@) == document_labels(),
        chars_view(versions@) == version_labels(),
    ensures
        refs_view(r@) == paired_from(t@, 0),
{
    let mut out: Vec<DocumentReference> = Vec::new();
    let mut p: usize = 0;
    while p < t.len()
        invariant
            p <= t@.len(),
            chars_view(documents@) == document_labels(),
            chars_view(versions@) == version_labels(),
            refs_view(out@) + paired_from(t@, p as int) == paired_from(t@, 0),
        decreases t@.len() - p,
    {
        let mut found: Option<(usize, usize)> = None;
        if let Some(d) = labelled_token_exec(t, p, documents) {
            proof {
                lemma_labelled_token_bounds(t@, p as int, document_labels(), 0);
            }
            let e = separator_run_end_exec(t, d + 24);
            if e > d + 24 {
                proof {
                    lemma_separator_run_end_bounds(t@, d + 24);
                }
                if let Some(v) = labelled_token_exec(t, e, versions) {
                    found = Some((d, v));
                }
            }
        }
        assert(match found {
            Some((d, v)) => paired_at(t@, p as int) == Some((d as int, v as int)),
            None => paired_at(t@, p as int) is None,
        });
        match found {
            Some((d, v)) => {
                proof {
                    lemma_paired_at_bounds(t@, p as int);
                }
                let reference = DocumentReference {
                    document_id: token_string(t, d),
                    version_id: token_string(t, v),
                };
                proof {
                    assert(refs_view(out@.push(reference)) =~= refs_view(out@).push(reference@));
                }
                out.push(reference);
                p = v + 24;
            },
            None => {
                p = p + 1;
            },
        }
    }
    proof {
        assert(refs_view(out@) + seq![] =~= refs_view(out@));
    }
    out
}

// ---------------------------------------------------------------------------
// Line by line

/// The first line break from `a` on, or the end of the text.
pub open spec fn newline_from(s: Seq<char>, a: int) -> int
    decreases s.len() - a,
{
    if 0 <= a < s.len() && s[a] != '\n' {
        newline_from(s, a + 1)
    } else {
        a
    }
}

/// A line without the carriage return that ended it.
pub open spec fn without_cr(l: Seq<char>) -> Seq<char> {
    if l.len() > 0 && l.last() == '\r' {
        l.drop_last()
    } else {
        l
    }
}

/// The lines from `a` on: split at `\n`, a `\r` before it dropped, and no
/// empty line after a final line break.
pub open spec fn lines_from(s: Seq<char>, a: int) -> Seq<Seq<char>>
    decreases s.len() - a,
{
    if a < 0 || a >= s.len() {
        seq![]
    } else {
        let b = newline_from(s, a);
        proof {
            lemma_newline_from_bounds(s, a);
        }
        if b >= s.len() {
            seq![s.subrange(a, s.len() as int)]
        } else {
            seq![without_cr(s.subrange(a, b))] + lines_from(s, b + 1)
        }
    }
}

/// The lines of a text.
pub open spec fn text_lines(s: Seq<char>) -> Seq<Seq<char>> {
    lines_from(s, 0)
}

/// The token of the first labelled match in `l`.
pub open spec fn first_token(l: Seq<char>, labels: Seq<Seq<char>>) -> Option<Seq<char>> {
    let ts = tokens_from(l, 0, labels);
    if ts.len() > 0 {
        Some(ts[0])
    } else {
        None
    }
}

/// The first version token among the lines `j .. end`.
pub open spec fn window_version(ls: Seq<Seq<char>>, j: int, end: int) -> Option<Seq<char>>
    decreases end - j,
{
    if j >= end || j < 0 || j >= ls.len() {
        None
    } else {
        match first_token(ls[j], version_labels()) {
            Some(v) => Some(v),
            None => window_version(ls, j + 1, end),
        }
    }
}

/// How many lines after a document line are searched for its version.
pub open spec fn window_end(i: int, n: int) -> int {
    if i + 5 < n {
        i + 5
    } else {
        n
    }
}

/// A reference for each line from `i` on that names a document: its version is
/// the first version in the next four lines, else the document id itself.
pub open spec fn line_refs(ls: Seq<Seq<char>>, i: int) -> Seq<RefView>
    decreases ls.len() - i,
{
    if i < 0 || i >= ls.len() {
        seq![]
    } else {
        match first_token(ls[i], document_labels()) {
            Some(d) => {
                let v = match window_version(ls, i + 1, window_end(i, ls.len() as int)) {
                    Some(v) => v,
                    None => d,
                };
                seq![(d, v)] + line_refs(ls, i + 1)
            },
            None => line_refs(ls, i + 1),
        }
    }
}

pub proof fn lemma_newline_from_bounds(s: Seq<char>, a: int)
    ensures
        newline_from(s, a) >= a,
        0 <= a <= s.len() ==> newline_from(s, a) <= s.len(),
        0 <= newline_from(s, a) < s.len() ==> s[newline_from(s, a)] == '\n',
    decreases s.len() - a,
{
    if 0 <= a < s.len() && s[a] != '\n' {
        lemma_newline_from_bounds(s, a + 1);
    }
}

fn lines_exec(t: &Vec<char>) -> (r: Vec<Vec<char>>)
    ensures
        chars_view(r@) == text_lines(t@),
{
    let mut out: Vec<Vec<char>> = Vec::new();
    let mut a: usize = 0;
    while a < t.len()
        invariant
            a <= t@.len(),
            chars_view(out@) + lines_from(t@, a as int) == text_lines(t@),
        decreases t@.len() - a,
    {
        let mut line: Vec<char> = Vec::new();
        let mut b = a;
        while b < t.len() && t[b] != '\n'
            invariant
                a <= b <= t@.len(),
                newline_from(t@, b as int) == newline_from(t@, a as int),
                line@ == t@.subrange(a as int, b as int),
            decreases t@.len() - b,
        {
            line.push(t[b]);
            b = b + 1;
        }
        if b < t.len() {
            if line.len() > 0 && line[line.len() - 1] == '\r' {
                line.pop();
            }
            assert(line@ == without_cr(t@.subrange(a as int, b as int)));
        }
        proof {
            assert(chars_view(out@.push(line)) =~= chars_view(out@).push(line@));
        }
        out.push(line);
        if b < t.len() {
            a = b + 1;
        } else {
            a = b;
            assert(lines_from(t@, a as int) =~= seq![]);
        }
    }
    proof {
        assert(chars_view(out@) + seq![] =~= chars_view(out@));
    }
    out
}

fn first_token_exec(l: &Vec<char>, labels: &Vec<Vec<char>>) -> (r: Option<String>)
    ensures
        match r {
            Some(x) => first_token(l@, chars_view(labels@)) == Some(x@),
            None => first_token(l@, chars_view(labels@)) is None,
        },
{
    let ts = tokens_exec(l, labels);
    if ts.len() > 0 {
        assert(strings_view(ts@)[0] == ts@[0]@);
        Some(ts[0].clone())
    } else {
        None
    }
}

fn window_version_exec(ls: &Vec<Vec<char>>, j: usize, end: usize, versions: &Vec<Vec<char>>) -> (r:
    Option<String>)
    requires
        end <= ls@.len(),
        chars_view(versions@) == version_labels(),
    ensures
        match r {
            Some(x) => window_version(chars_view(ls@), j as int, end as int) == Some(x@),
            None => window_version(chars_view(ls@), j as int, end as int) is None,
        },
{
    let ghost lv = chars_view(ls@);
    let mut k = j;
    while k < end
        invariant
            j <= k,
            end <= ls@.len(),
            lv == chars_view(ls@),
            chars_view(versions@) == version_labels(),
            window_version(lv, k as int, end as int) == window_version(lv, j as int, end as int),
        decreases end - k,
    {
        assert(lv[k as int] == ls@[k as int]@);
        if let Some(v) = first_token_exec(&ls[k], versions) {
            return Some(v);
        }
        k = k + 1;
    }
    None
}

fn line_refs_exec(t: &Vec<char>, documents: &Vec<Vec<char>>, versions: &Vec<Vec<char>>) -> (r: Vec<
    DocumentReference,
>)
    requires
        chars_view(documents@) == document_labels(),
        chars_view(versions@) == version_labels(),
    ensures
        refs_view(r@) == line_refs(text_lines(t@), 0),
{
    let ls = lines_exec(t);
    let ghost lv = chars_view(ls@);
    let mut out: Vec<DocumentReference> = Vec::new();
    let mut i: usize = 0;
    while i < ls.len()
        invariant
            i <= ls@.len(),
            lv == chars_view(ls@),
            lv == text_lines(t@),
            chars_view(documents@) == document_labels(),
            chars_view(versions@) == version_labels(),
            refs_view(out@) + line_refs(lv, i as int) == line_refs(lv, 0),
        decreases ls@.len() - i,
    {
        assert(lv[i as int] == ls@[i as int]@);
        if let Some(d) = first_token_exec(&ls[i], documents) {
            let end = if ls.len() - i > 5 {
                i + 5
            } else {
                ls.len()
            };
            let v = match window_version_exec(&ls, i + 1, end, versions) {
                Some(v) => v,
                None => d.clone(),
            };
            let reference = DocumentReference { document_id: d, version_id: v };
            proof {
                assert(refs_view(out@.push(reference)) =~= refs_view(out@).push(reference@));
            }
            out.push(reference);
        }
        i = i + 1;
    }
    proof {
        assert(refs_view(out@) + seq![] =~= refs_view(out@));
    }
    out
}

// ---------------------------------------------------------------------------
// Pairing by position, and the whole cascade

/// The i-th document token with the i-th version token, or with itself when
/// there are fewer versions.
pub open spec fn pair_by_position(d: Seq<Seq<char>>, v: Seq<Seq<char>>) -> Seq<RefView> {
    Seq::new(
        d.len(),
        |i: int|
            (
                d[i],
                if i < v.len() {
                    v[i]
                } else {
                    d[i]
                },
            ),
    )
}

/// The references cited in `s`: the result of the first strategy that finds
/// any, in the order bracketed, line by line, paired, by position.
pub open spec fn cited_references(s: Seq<char>) -> Seq<RefView> {
    let bracketed = bracketed_from(s, 0);
    let by_line = line_refs(text_lines(s), 0);
    let paired = paired_from(s, 0);
    if bracketed.len() > 0 {
        bracketed
    } else if by_line.len() > 0 {
        by_line
    } else if paired.len() > 0 {
        paired
    } else {
        pair_by_position(
            tokens_from(s, 0, document_labels()),
            tokens_from(s, 0, version_labels()),
        )
    }
}

fn pair_by_position_exec(d: Vec<String>, v: Vec<String>) -> (r: Vec<DocumentReference>)
    ensures
        refs_view(r@) == pair_by_position(strings_view(d@), strings_view(v@)),
{
    let mut out: Vec<DocumentReference> = Vec::new();
    let mut i: usize = 0;
    while i < d.len()
        invariant
            i <= d@.len(),
            refs_view(out@) =~= pair_by_position(strings_view(d@), strings_view(v@)).take(
                i as int,
            ),
        decreases d@.len() - i,
    {
        let version = if i < v.len() {
            v[i].clone()
        } else {
            d[i].clone()
        };
        let reference = DocumentReference { document_id: d[i].clone(), version_id: version };
        proof {
            assert(refs_view(out@.push(reference)) =~= refs_view(out@).push(reference@));
        }
        out.push(reference);
        i = i + 1;
    }
    out
}

/// Finds the document references cited in a model reply.
pub fn extract_document_references(text: &str) -> (r: Vec<DocumentReference>)
    ensures
        refs_view(r@) == cited_references(text@),
{
    let t = chars_of(text);
    let documents = document_labels_exec();
    let versions = version_labels_exec();
    let bracketed = bracketed_exec(&t, &documents, &versions);
    if bracketed.len() > 0 {
        return bracketed;
    }
    let by_line = line_refs_exec(&t, &documents, &versions);
    if by_line.len() > 0 {
        return by_line;
    }
    let paired = paired_exec(&t, &documents, &versions);
    if paired.len() > 0 {
        return paired;
    }
    let document_ids = tokens_exec(&t, &documents);
    let version_ids = tokens_exec(&t, &versions);
    pair_by_position_exec(document_ids, version_ids)
}

/// When the text holds any bracketed citation, the result is exactly the
/// bracketed citations, in order; no other strategy adds to them.
pub proof fn bracketed_citations_take_precedence(s: Seq<char>)
    requires
        bracketed_from(s, 0).len() > 0,
    ensures
        cited_references(s) == bracketed_from(s, 0),
{
}

/// Pairing by position gives one reference per document token: the i-th
/// takes the i-th version token while there is one, and pairs with itself
/// after that.
pub proof fn positional_pairing(d: Seq<Seq<char>>, v: Seq<Seq<char>>)
    ensures
        pair_by_position(d, v).len() == d.len(),
        forall|i: int| 0 <= i < d.len() && i < v.len() ==> #[trigger] pair_by_position(d, v)[i] == (d[i], v[i]),
        forall|i: int| v.len() <= i < d.len() ==> #[trigger] pair_by_position(d, v)[i] == (d[i], d[i]),
{
}

// ---------------------------------------------------------------------------
// Texts without version labels

/// No version label with its token starts anywhere in `s`.
pub open spec fn has_no_version_label(s: Seq<char>) -> bool {
    forall|p: int| #[trigger] labelled_token(s, p, version_labels(), 0) is None
}

proof fn lemma_space_run_in_piece(s: Seq<char>, a: int, b: int, p: int)
    requires
        0 <= a <= b <= s.len(),
        0 <= p <= b - a,
        space_run_end(s.subrange(a, b), p) < b - a,
    ensures
        space_run_end(s, a + p) == a + space_run_end(s.subrange(a, b), p),
    decreases b - a - p,
{
    let t = s.subrange(a, b);
    if p < t.len() && is_space(t[p]) {
        lemma_space_run_in_piece(s, a, b, p + 1);
    }
}

proof fn lemma_label_in_piece(s: Seq<char>, a: int, b: int, p: int, pat: Seq<char>, i: int)
    requires
        0 <= a <= b <= s.len(),
        0 <= p <= b - a,
        label_end(s.subrange(a, b), p, pat, i) matches Some(e) && e < b - a,
    ensures
        label_end(s, a + p, pat, i) == Some(a + label_end(s.subrange(a, b), p, pat, i)->Some_0),
    decreases pat.len() - i,
{
    let t = s.subrange(a, b);
    if i < pat.len() {
        if pat[i] == ' ' {
            let e1 = space_run_end(t, p);
            lemma_space_run_end_bounds(t, p);
            lemma_label_end_bounds(t, e1, pat, i + 1);
            lemma_space_run_in_piece(s, a, b, p);
            lemma_label_in_piece(s, a, b, e1, pat, i + 1);
        } else {
            lemma_label_end_bounds(t, p + 1, pat, i + 1);
            lemma_label_in_piece(s, a, b, p + 1, pat, i + 1);
        }
    }
}

proof fn lemma_token_in_piece(s: Seq<char>, a: int, b: int, p: int, label: Seq<char>)
    requires
        0 <= a <= b <= s.len(),
        0 <= p <= b - a,
        token_after_label(s.subrange(a, b), p, label) is Some,
    ensures
        token_after_label(s, a + p, label) is Some,
{
    let t = s.subrange(a, b);
    let e = label_end(t, p, label, 0)->Some_0;
    lemma_label_in_piece(s, a, b, p, label, 0);
    let h = space_run_end(t, e + 1);
    lemma_space_run_end_bounds(t, e + 1);
    lemma_space_run_in_piece(s, a, b, e + 1);
    assert forall|k: int| a + h <= k < a + h + 24 implies is_hex_digit(#[trigger] s[k]) by {
        assert(s[k] == t[k - a]);
    }
}

proof fn lemma_labelled_in_piece(s: Seq<char>, a: int, b: int, p: int, labels: Seq<Seq<char>>, k: int)
    requires
        0 <= a <= b <= s.len(),
        labelled_token(s.subrange(a, b), p, labels, k) is Some,
    ensures
        labelled_token(s, a + p, labels, k) is Some,
    decreases labels.len() - k,
{
    let t = s.subrange(a, b);
    lemma_labelled_token_bounds(t, p, labels, k);
    if token_after_label(t, p, labels[k]) is Some {
        lemma_token_in_piece(s, a, b, p, labels[k]);
    } else {
        lemma_labelled_in_piece(s, a, b, p, labels, k + 1);
    }
}

proof fn lemma_no_tokens(s: Seq<char>, p: int, labels: Seq<Seq<char>>)
    requires
        forall|q: int| #[trigger] labelled_token(s, q, labels, 0) is None,
    ensures
        tokens_from(s, p, labels) == Seq::<Seq<char>>::empty(),
    decreases s.len() - p,
{
    if 0 <= p < s.len() {
        assert(labelled_token(s, p, labels, 0) is None);
        lemma_no_tokens(s, p + 1, labels);
    }
}

proof fn lemma_lines_are_pieces(s: Seq<char>, a: int)
    requires
        0 <= a,
    ensures
        forall|j: int|
            0 <= j < lines_from(s, a).len() ==> exists|x: int, y: int|
                0 <= x <= y <= s.len() && #[trigger] lines_from(s, a)[j] == s.subrange(x, y),
    decreases s.len() - a,
{
    if a < s.len() {
        let b = newline_from(s, a);
        lemma_newline_from_bounds(s, a);
        if b < s.len() {
            lemma_lines_are_pieces(s, b + 1);
            let first = without_cr(s.subrange(a, b));
            let y = if first.len() < b - a { b - 1 } else { b };
            assert(first =~= s.subrange(a, y));
            let ls = lines_from(s, a);
            assert forall|j: int| 0 <= j < ls.len() implies exists|x: int, y: int|
                0 <= x <= y <= s.len() && #[trigger] ls[j] == s.subrange(x, y) by {
                if j == 0 {
                    assert(ls[0] == s.subrange(a, y));
                } else {
                    assert(ls[j] == lines_from(s, b + 1)[j - 1]);
                }
            }
        } else {
            let ls = lines_from(s, a);
            assert(ls[0] == s.subrange(a, s.len() as int));
        }
    }
}

proof fn lemma_piece_has_no_version(s: Seq<char>, x: int, y: int)
    requires
        0 <= x <= y <= s.len(),
        has_no_version_label(s),
    ensures
        first_token(s.subrange(x, y), version_labels()) is None,
{
    let t = s.subrange(x, y);
    assert forall|q: int| #[trigger] labelled_token(t, q, version_labels(), 0) is None by {
        if labelled_token(t, q, version_labels(), 0) is Some {
            lemma_labelled_in_piece(s, x, y, q, version_labels(), 0);
            assert(labelled_token(s, x + q, version_labels(), 0) is None);
        }
    }
    lemma_no_tokens(t, 0, version_labels());
}

proof fn lemma_window_none(ls: Seq<Seq<char>>, j: int, end: int)
    requires
        forall|i: int| 0 <= i < ls.len() ==> #[trigger] first_token(ls[i], version_labels()) is None,
    ensures
        window_version(ls, j, end) is None,
    decreases end - j,
{
    if j < end && 0 <= j < ls.len() {
        lemma_window_none(ls, j + 1, end);
    }
}

proof fn lemma_line_refs_self(ls: Seq<Seq<char>>, i: int)
    requires
        forall|k: int| 0 <= k < ls.len() ==> #[trigger] first_token(ls[k], version_labels()) is None,
    ensures
        forall|n: int|
            0 <= n < line_refs(ls, i).len() ==> (#[trigger] line_refs(ls, i)[n]).0 == line_refs(
                ls,
                i,
            )[n].1,
    decreases ls.len() - i,
{
    if 0 <= i < ls.len() {
        lemma_line_refs_self(ls, i + 1);
        lemma_window_none(ls, i + 1, window_end(i, ls.len() as int));
        let r = line_refs(ls, i);
        let rest = line_refs(ls, i + 1);
        if first_token(ls[i], document_labels()) is Some {
            assert forall|n: int| 0 <= n < r.len() implies (#[trigger] r[n]).0 == r[n].1 by {
                if n > 0 {
                    assert(r[n] == rest[n - 1]);
                }
            }
        }
    }
}

proof fn lemma_no_brackets(s: Seq<char>, p: int)
    requires
        has_no_version_label(s),
    ensures
        bracketed_from(s, p).len() == 0,
    decreases s.len() - p,
{
    if 0 <= p < s.len() {
        lemma_no_citation(s, p + 1);
        lemma_no_brackets(s, p + 1);
    }
}

proof fn lemma_no_version_then_close(s: Seq<char>, q: int)
    requires
        has_no_version_label(s),
    ensures
        version_then_close(s, q) is None,
    decreases s.len() - q,
{
    assert(labelled_token(s, q, version_labels(), 0) is None);
    if 0 <= q < s.len() {
        lemma_no_version_then_close(s, q + 1);
    }
}

proof fn lemma_no_citation(s: Seq<char>, q: int)
    requires
        has_no_version_label(s),
    ensures
        citation_from(s, q) is None,
    decreases s.len() - q,
{
    if 0 <= q < s.len() {
        if let Some(d) = labelled_token(s, q, document_labels(), 0) {
            lemma_no_version_then_close(s, d + 24);
        }
        lemma_no_citation(s, q + 1);
    }
}

proof fn lemma_no_pairs(s: Seq<char>, p: int)
    requires
        has_no_version_label(s),
    ensures
        paired_from(s, p).len() == 0,
    decreases s.len() - p,
{
    if 0 <= p < s.len() {
        if let Some(d) = labelled_token(s, p, document_labels(), 0) {
            assert(labelled_token(s, separator_run_end(s, d + 24), version_labels(), 0) is None);
        }
        lemma_no_pairs(s, p + 1);
    }
}

/// When no version label appears anywhere in the text, every reference found
/// pairs a document id with itself.
pub proof fn without_versions_documents_pair_with_themselves(s: Seq<char>)
    requires
        has_no_version_label(s),
    ensures
        forall|i: int|
            0 <= i < cited_references(s).len() ==> (#[trigger] cited_references(s)[i]).0
                == cited_references(s)[i].1,
{
    lemma_no_brackets(s, 0);
    let ls = text_lines(s);
    lemma_lines_are_pieces(s, 0);
    assert forall|k: int| 0 <= k < ls.len() implies #[trigger] first_token(
        ls[k],
        version_labels(),
    ) is None by {
        let (x, y) = choose|x: int, y: int| 0 <= x <= y <= s.len() && ls[k] == s.subrange(x, y);
        lemma_piece_has_no_version(s, x, y);
    }
    lemma_line_refs_self(ls, 0);
    lemma_no_pairs(s, 0);
    lemma_no_tokens(s, 0, version_labels());
}

/// One self-paired reference for each line from the `i`-th on that names a
/// document: the line's first document token, twice.
pub open spec fn document_lines(ls: Seq<Seq<char>>, i: int) -> Seq<RefView>
    decreases ls.len() - i,
{
    if i < 0 || i >= ls.len() {
        seq![]
    } else {
        match first_token(ls[i], document_labels()) {
            Some(d) => seq![(d, d)] + document_lines(ls, i + 1),
            None => document_lines(ls, i + 1),
        }
    }
}

proof fn lemma_line_refs_are_document_lines(ls: Seq<Seq<char>>, i: int)
    requires
        forall|k: int| 0 <= k < ls.len() ==> #[trigger] first_token(ls[k], version_labels()) is None,
    ensures
        line_refs(ls, i) == document_lines(ls, i),
    decreases ls.len() - i,
{
    if 0 <= i < ls.len() {
        lemma_line_refs_are_document_lines(ls, i + 1);
        lemma_window_none(ls, i + 1, window_end(i, ls.len() as int));
    }
}

/// When no version label appears anywhere in the text and some line names a
/// document, the result has one reference per such line, in order: the
/// line's first document id, paired with itself.
pub proof fn document_lines_pair_with_themselves(s: Seq<char>)
    requires
        has_no_version_label(s),
        document_lines(text_lines(s), 0).len() > 0,
    ensures
        cited_references(s) == document_lines(text_lines(s), 0),
{
    lemma_no_brackets(s, 0);
    let ls = text_lines(s);
    lemma_lines_are_pieces(s, 0);
    assert forall|k: int| 0 <= k < ls.len() implies #[trigger] first_token(
        ls[k],
        version_labels(),
    ) is None by {
        let (x, y) = choose|x: int, y: int| 0 <= x <= y <= s.len() && ls[k] == s.subrange(x, y);
        lemma_piece_has_no_version(s, x, y);
    }
    lemma_line_refs_are_document_lines(ls, 0);
}

/// A character that labels are written with: a lower-case ASCII letter, a
/// space, or 'ó'.
pub open spec fn is_label_char(c: char) -> bool {
    ('a' <= c <= 'z') || c == ' ' || c == 'ó'
}

/// The labels are written with label characters and start with a letter.
pub open spec fn well_spelled(labels: Seq<Seq<char>>) -> bool {
    &&& forall|k: int, i: int|
        0 <= k < labels.len() && 0 <= i < labels[k].len() ==> is_label_char(#[trigger] labels[k][i])
    &&& forall|k: int| 0 <= k < labels.len() ==> (#[trigger] labels[k]).len() > 0 && labels[k][0] != ' '
}

pub proof fn lemma_labels_well_spelled()
    ensures
        well_spelled(document_labels()),
        well_spelled(version_labels()),
{
    reveal_strlit("document id");
    reveal_strlit("documentid");
    reveal_strlit("documento id");
    reveal_strlit("documentoid");
    reveal_strlit("id du document");
    reveal_strlit("iddudocument");
    reveal_strlit("document version id");
    reveal_strlit("documentversionid");
    reveal_strlit("version id");
    reveal_strlit("versionid");
    reveal_strlit("documento version id");
    reveal_strlit("documentoversionid");
    reveal_strlit("versión id");
    reveal_strlit("id de version du document");
    reveal_strlit("iddeversiondudocument");
    reveal_strlit("id de version");
    reveal_strlit("iddeversion");
}

/// `l` spells one of `labels` (in any case, with any whitespace run for a
/// space) when it stands before a `:`.
pub open spec fn spells(l: Seq<char>, labels: Seq<Seq<char>>) -> bool {
    exists|j: int| 0 <= j < labels.len() && #[trigger] label_end(l + ":"@, 0, labels[j], 0) == Some(l.len() as int)
}

/// 24 hexadecimal digits.
pub open spec fn is_hex_token(t: Seq<char>) -> bool {
    t.len() == 24 && hex_token_at(t, 0)
}

/// A citation as written: (document label, document id, version label, version id).
pub type Citation = (Seq<char>, Seq<char>, Seq<char>, Seq<char>);

/// A citation whose labels spell a document label and a version label and
/// whose ids are tokens.
pub open spec fn well_formed_citation(c: Citation) -> bool {
    spells(c.0, document_labels()) && is_hex_token(c.1) && spells(c.2, version_labels()) && is_hex_token(c.3)
}

/// The bracketed form of a citation: `[<label>: <id>, <label>: <id>]`.
pub open spec fn citation_block(c: Citation) -> Seq<char> {
    "["@ + c.0 + ": "@ + c.1 + ", "@ + c.2 + ": "@ + c.3 + "]"@
}

/// Filler text and bracketed citations in turn: `fillers[0]`, the first
/// citation, `fillers[1]`, and so on.
pub open spec fn citations_text(fillers: Seq<Seq<char>>, cs: Seq<Citation>) -> Seq<char>
    decreases cs.len(),
{
    if fillers.len() == 0 {
        seq![]
    } else if cs.len() == 0 {
        fillers[0]
    } else {
        fillers[0] + citation_block(cs[0]) + citations_text(fillers.drop_first(), cs.drop_first())
    }
}

/// The ids of each citation, in order.
pub open spec fn citation_ids(cs: Seq<Citation>) -> Seq<RefView> {
    cs.map_values(|c: Citation| (c.1, c.3))
}

proof fn lemma_label_passes_no_colon(s: Seq<char>, p: int, pat: Seq<char>, i: int)
    requires
        0 <= i,
        forall|m: int| 0 <= m < pat.len() ==> is_label_char(#[trigger] pat[m]),
        label_end(s, p, pat, i) is Some,
    ensures
        forall|j: int| p <= j < label_end(s, p, pat, i)->Some_0 ==> #[trigger] s[j] != ':',
    decreases pat.len() - i,
{
    if i < pat.len() {
        if pat[i] == ' ' {
            let e = space_run_end(s, p);
            lemma_space_run_all_spaces(s, p);
            lemma_label_passes_no_colon(s, e, pat, i + 1);
        } else {
            assert(is_label_char(pat[i]));
            lemma_label_passes_no_colon(s, p + 1, pat, i + 1);
        }
    }
}

proof fn lemma_space_run_all_spaces(s: Seq<char>, p: int)
    ensures
        forall|j: int| p <= j < space_run_end(s, p) ==> is_space(#[trigger] s[j]),
    decreases s.len() - p,
{
    if 0 <= p < s.len() && is_space(s[p]) {
        lemma_space_run_all_spaces(s, p + 1);
    }
}

proof fn lemma_no_label_at_separator(s: Seq<char>, p: int, labels: Seq<Seq<char>>, k: int)
    requires
        well_spelled(labels),
        0 <= p < s.len(),
        s[p] == ',' || s[p] == ' ',
        0 <= k,
    ensures
        labelled_token(s, p, labels, k) is None,
    decreases labels.len() - k,
{
    if 0 <= k < labels.len() {
        let l = labels[k];
        assert(l.len() > 0 && l[0] != ' ');
        assert(is_label_char(l[0]));
        assert(!folds_to(s[p], l[0]));
        assert(label_end(s, p, l, 0) is None);
        lemma_no_label_at_separator(s, p, labels, k + 1);
    }
}

proof fn lemma_same_token(s: Seq<char>, p: int, labels: Seq<Seq<char>>, k: int, j: int, h0: int)
    requires
        k <= j < labels.len(),
        0 <= k,
        token_after_label(s, p, labels[j]) == Some(h0),
        forall|m: int| 0 <= m < labels.len() && (#[trigger] token_after_label(s, p, labels[m])) is Some
            ==> token_after_label(s, p, labels[m]) == Some(h0),
    ensures
        labelled_token(s, p, labels, k) == Some(h0),
    decreases j - k,
{
    if token_after_label(s, p, labels[k]) is None {
        lemma_same_token(s, p, labels, k + 1, j, h0);
    }
}

proof fn lemma_written_label(s: Seq<char>, p: int, l: Seq<char>, labels: Seq<Seq<char>>)
    requires
        well_spelled(labels),
        spells(l, labels),
        0 <= p,
        p + l.len() + 26 <= s.len(),
        s.subrange(p, p + l.len()) == l,
        s[p + l.len()] == ':',
        s[p + l.len() + 1] == ' ',
        hex_token_at(s, p + l.len() + 2),
    ensures
        labelled_token(s, p, labels, 0) == Some(p + l.len() + 2),
{
    let j = choose|j: int| 0 <= j < labels.len() && #[trigger] label_end(l + ":"@, 0, labels[j], 0) == Some(l.len() as int);
    let b = p + l.len() + 1;
    reveal_strlit(":");
    assert(s.subrange(p, b) =~= l + ":"@);
    lemma_label_in_piece(s, p, b, 0, labels[j], 0);
    assert forall|m: int| 0 <= m < labels[j].len() implies is_label_char(#[trigger] labels[j][m]) by {}
    lemma_label_passes_no_colon(l + ":"@, 0, labels[j], 0);
    assert forall|i: int| p <= i < p + l.len() implies #[trigger] s[i] != ':' by {
        assert(s[i] == (l + ":"@)[i - p]);
    }
    let c = p + l.len();
    let h0 = c + 2;
    assert(!is_space(s[h0]));
    assert(space_run_end(s, c + 2) == c + 2);
    assert(space_run_end(s, c + 1) == c + 2);
    assert forall|m: int| 0 <= m < labels.len() && (#[trigger] token_after_label(s, p, labels[m])) is Some
        implies token_after_label(s, p, labels[m]) == Some(h0) by {
        assert forall|i: int| 0 <= i < labels[m].len() implies is_label_char(#[trigger] labels[m][i]) by {}
        lemma_label_passes_no_colon(s, p, labels[m], 0);
        lemma_label_end_bounds(s, p, labels[m], 0);
        let e = label_end(s, p, labels[m], 0)->Some_0;
        if e < c {
            assert(s[e] != ':');
        } else if e > c {
            assert(s[c] != ':');
        }
    }
    lemma_same_token(s, p, labels, 0, j, h0);
}

proof fn lemma_no_bracket_in_filler(s: Seq<char>, p: int, n: int)
    requires
        0 <= p,
        0 <= n,
        p + n <= s.len(),
        forall|i: int| p <= i < p + n ==> #[trigger] s[i] != '[',
    ensures
        bracketed_from(s, p) == bracketed_from(s, p + n),
    decreases n,
{
    if n > 0 {
        assert(s[p] != '[');
        lemma_no_bracket_in_filler(s, p + 1, n - 1);
    }
}

#[verifier::spinoff_prover]
#[verifier::rlimit(60)]
proof fn lemma_citations_from(s: Seq<char>, p: int, fillers: Seq<Seq<char>>, cs: Seq<Citation>)
    requires
        0 <= p <= s.len(),
        fillers.len() == cs.len() + 1,
        s.subrange(p, s.len() as int) == citations_text(fillers, cs),
        forall|k: int| 0 <= k < cs.len() ==> well_formed_citation(#[trigger] cs[k]),
        forall|k: int, i: int| 0 <= k < fillers.len() && 0 <= i < fillers[k].len() ==> #[trigger] fillers[k][i] != '[',
    ensures
        bracketed_from(s, p) == citation_ids(cs),
    decreases cs.len(),
{
    let f0 = fillers[0];
    let st = p + f0.len();
    if cs.len() == 0 {
        assert(s.subrange(p, s.len() as int) == f0);
        assert forall|i: int| p <= i < p + f0.len() implies #[trigger] s[i] != '[' by {
            assert(s[i] == f0[i - p]);
            assert(fillers[0][i - p] != '[');
        }
        lemma_no_bracket_in_filler(s, p, f0.len() as int);
        assert(citation_ids(cs) =~= seq![]);
    } else {
        let c = cs[0];
        let (ld, d, lv, v) = c;
        let rest = citations_text(fillers.drop_first(), cs.drop_first());
        let block = citation_block(c);
        reveal_strlit("[");
        reveal_strlit(": ");
        reveal_strlit(", ");
        reveal_strlit("]");
        assert(s.subrange(p, s.len() as int) == f0 + block + rest);
        let a1 = st + 1 + ld.len();
        let hd = a1 + 2;
        let r = hd + 26;
        let a2 = r + lv.len();
        let hv = a2 + 2;
        let cl = hv + 24;
        assert(block.len() == cl - st + 1);
        assert forall|k: int| st <= k < st + block.len() implies #[trigger] s[k] == block[k - st] by {
            assert(s[k] == (f0 + block + rest)[k - p]);
        }
        assert forall|i: int| p <= i < st implies #[trigger] s[i] != '[' by {
            assert(s[i] == (f0 + block + rest)[i - p]);
            assert(fillers[0][i - p] != '[');
        }
        lemma_no_bracket_in_filler(s, p, f0.len() as int);
        assert(s[st] == '[') by { assert(s[st] == block[st - st]); }
        assert(s.subrange(st + 1, a1) =~= ld) by {
            assert forall|i: int| 0 <= i < ld.len() implies s.subrange(st + 1, a1)[i] == ld[i] by {
                assert(s[st + 1 + i] == block[st + 1 + i - st]);
            }
        }
        assert(s[a1] == ':') by { assert(block[a1 - st] == ':'); }
        assert(s[a1 + 1] == ' ') by { assert(block[a1 + 1 - st] == ' '); }
        assert(hex_token_at(s, hd)) by {
            assert forall|k: int| hd <= k < hd + 24 implies is_hex_digit(#[trigger] s[k]) by {
                assert(s[k] == block[k - st]);
                assert(block[k - st] == d[k - hd]);
            }
        }
        assert(s[hd + 24] == ',') by { assert(block[hd + 24 - st] == ','); }
        assert(s[hd + 25] == ' ') by { assert(block[hd + 25 - st] == ' '); }
        assert(s.subrange(r, a2) =~= lv) by {
            assert forall|i: int| 0 <= i < lv.len() implies s.subrange(r, a2)[i] == lv[i] by {
                assert(s[r + i] == block[r + i - st]);
            }
        }
        assert(s[a2] == ':') by { assert(block[a2 - st] == ':'); }
        assert(s[a2 + 1] == ' ') by { assert(block[a2 + 1 - st] == ' '); }
        assert(hex_token_at(s, hv)) by {
            assert forall|k: int| hv <= k < hv + 24 implies is_hex_digit(#[trigger] s[k]) by {
                assert(s[k] == block[k - st]);
                assert(block[k - st] == v[k - hv]);
            }
        }
        assert(s[cl] == ']') by { assert(block[cl - st] == ']'); }
        assert(well_formed_citation(cs[0]));
        lemma_labels_well_spelled();
        lemma_written_label(s, st + 1, ld, document_labels());
        lemma_written_label(s, r, lv, version_labels());
        lemma_no_label_at_separator(s, hd + 24, version_labels(), 0);
        lemma_no_label_at_separator(s, hd + 25, version_labels(), 0);
        assert(closing_bracket(s, cl) == Some(cl));
        assert(version_then_close(s, r) == Some((hv, cl)));
        assert(version_then_close(s, hd + 25) == Some((hv, cl)));
        assert(version_then_close(s, hd + 24) == Some((hv, cl)));
        assert(citation_from(s, st + 1) == Some((hd, hv, cl)));
        assert(token(s, hd) =~= d) by {
            assert forall|i: int| 0 <= i < 24 implies token(s, hd)[i] == d[i] by {
                assert(s[hd + i] == block[hd + i - st]);
            }
        }
        assert(token(s, hv) =~= v) by {
            assert forall|i: int| 0 <= i < 24 implies token(s, hv)[i] == v[i] by {
                assert(s[hv + i] == block[hv + i - st]);
            }
        }
        assert(s.subrange(cl + 1, s.len() as int) =~= rest) by {
            assert forall|i: int| 0 <= i < rest.len() implies s.subrange(cl + 1, s.len() as int)[i] == rest[i] by {
                assert(s[cl + 1 + i] == (f0 + block + rest)[f0.len() + block.len() + i]);
            }
        }
        assert forall|k: int| 0 <= k < cs.drop_first().len() implies well_formed_citation(#[trigger] cs.drop_first()[k]) by {
            assert(cs.drop_first()[k] == cs[k + 1]);
        }
        assert forall|k: int, i: int| 0 <= k < fillers.drop_first().len() && 0 <= i < fillers.drop_first()[k].len()
            implies #[trigger] fillers.drop_first()[k][i] != '[' by {
            assert(fillers.drop_first()[k] == fillers[k + 1]);
        }
        lemma_citations_from(s, cl + 1, fillers.drop_first(), cs.drop_first());
        assert(citation_ids(cs) =~= seq![(d, v)] + citation_ids(cs.drop_first()));
    }
}

/// Bracketed citations amid text without `[`: one reference per citation,
/// each with its own ids, in the order they are written.
pub proof fn bracketed_citations_in_order(fillers: Seq<Seq<char>>, cs: Seq<Citation>)
    requires
        cs.len() >= 1,
        fillers.len() == cs.len() + 1,
        forall|k: int| 0 <= k < cs.len() ==> well_formed_citation(#[trigger] cs[k]),
        forall|k: int, i: int| 0 <= k < fillers.len() && 0 <= i < fillers[k].len() ==> #[trigger] fillers[k][i] != '[',
    ensures
        cited_references(citations_text(fillers, cs)) == citation_ids(cs),
{
    let s = citations_text(fillers, cs);
    assert(s.subrange(0, s.len() as int) =~= s);
    lemma_citations_from(s, 0, fillers, cs);
}

} // verus!
