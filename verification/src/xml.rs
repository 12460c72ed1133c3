//! A forward-only scanner for structured event documents. Each call yields
//! one token — a start tag with its attributes, an end tag, a run of text, a
//! CDATA section, or a skipped declaration — and the position where the next
//! one begins. The
//! scanner never fails: malformed structure degrades to shorter tokens and the
//! scan always reaches the end of the document.

use vstd::prelude::*;
use vstd::string::*;
use crate::text::{is_ws, is_ws_char, str_eq};

verus! {

/// One attribute of a start tag.
pub struct Attr {
    pub name: String,
    pub value: String,
}

#[verifier::ext_equal]
pub ghost struct AttrModel {
    pub name: Seq<char>,
    pub value: Seq<char>,
}

impl View for Attr {
    type V = AttrModel;

    open spec fn view(&self) -> AttrModel {
        AttrModel { name: self.name@, value: self.value@ }
    }
}

pub open spec fn attr_models(s: Seq<Attr>) -> Seq<AttrModel> {
    s.map_values(|a: Attr| a@)
}

/// One step of the scan.
pub enum XmlToken {
    Start { name: String, attrs: Vec<Attr>, self_closing: bool },
    End { name: String },
    Text { text: String },
    Cdata { text: String },
    Skip,
    Eof,
}

#[verifier::ext_equal]
pub ghost enum TokenModel {
    Start { name: Seq<char>, attrs: Seq<AttrModel>, self_closing: bool },
    End { name: Seq<char> },
    Text { text: Seq<char> },
    Cdata { text: Seq<char> },
    Skip,
    Eof,
}

impl View for XmlToken {
    type V = TokenModel;

    open spec fn view(&self) -> TokenModel {
        match self {
            XmlToken::Start { name, attrs, self_closing } => TokenModel::Start {
                name: name@,
                attrs: attr_models(attrs@),
                self_closing: *self_closing,
            },
            XmlToken::End { name } => TokenModel::End { name: name@ },
            XmlToken::Text { text } => TokenModel::Text { text: text@ },
            XmlToken::Cdata { text } => TokenModel::Cdata { text: text@ },
            XmlToken::Skip => TokenModel::Skip,
            XmlToken::Eof => TokenModel::Eof,
        }
    }
}

/// First index at or after `i` holding `c`, or the length if there is none.
pub open spec fn find_ch(s: Seq<char>, i: int, c: char) -> int
    decreases s.len() - i when 0 <= i <= s.len()
{
    if i >= s.len() {
        s.len() as int
    } else if s[i] == c {
        i
    } else {
        find_ch(s, i + 1, c)
    }
}

pub proof fn lemma_find_ch_bounds(s: Seq<char>, i: int, c: char)
    requires
        0 <= i <= s.len(),
    ensures
        i <= find_ch(s, i, c) <= s.len(),
    decreases s.len() - i,
{
    if i < s.len() && s[i] != c {
        lemma_find_ch_bounds(s, i + 1, c);
    }
}

fn find_ch_exec(s: &str, i: usize, c: char) -> (r: usize)
    requires
        i <= s@.len(),
    ensures
        r == find_ch(s@, i as int, c),
        i <= r <= s@.len(),
    decreases s@.len() - i,
{
    proof { lemma_find_ch_bounds(s@, i as int, c); }
    if i >= s.unicode_len() {
        s.unicode_len()
    } else if s.get_char(i) == c {
        i
    } else {
        find_ch_exec(s, i + 1, c)
    }
}

/// First index at or after `i` where a CDATA terminator `]]>` begins, or the
/// length if there is none.
pub open spec fn find_cdata_end(s: Seq<char>, i: int) -> int
    decreases s.len() - i when 0 <= i <= s.len()
{
    if i + 3 > s.len() {
        s.len() as int
    } else if s.subrange(i, i + 3) == "]]>"@ {
        i
    } else {
        find_cdata_end(s, i + 1)
    }
}

pub proof fn lemma_find_cdata_end_bounds(s: Seq<char>, i: int)
    requires
        0 <= i <= s.len(),
    ensures
        i <= find_cdata_end(s, i) <= s.len(),
    decreases s.len() - i,
{
    if !(i + 3 > s.len()) && s.subrange(i, i + 3) != "]]>"@ {
        lemma_find_cdata_end_bounds(s, i + 1);
    }
}

fn find_cdata_end_exec(s: &str, i: usize) -> (r: usize)
    requires
        i <= s@.len(),
    ensures
        r == find_cdata_end(s@, i as int),
        i <= r <= s@.len(),
    decreases s@.len() - i,
{
    proof { lemma_find_cdata_end_bounds(s@, i as int); }
    let n = s.unicode_len();
    if n < 3 || i > n - 3 {
        n
    } else if str_eq(s.substring_char(i, i + 3), "]]>") {
        i
    } else {
        find_cdata_end_exec(s, i + 1)
    }
}

/// Characters that end a tag name.
pub open spec fn is_name_end(c: char) -> bool {
    is_ws(c) || c == '>' || c == '/'
}

pub open spec fn tag_name_end(s: Seq<char>, i: int) -> int
    decreases s.len() - i when 0 <= i <= s.len()
{
    if i >= s.len() {
        s.len() as int
    } else if is_name_end(s[i]) {
        i
    } else {
        tag_name_end(s, i + 1)
    }
}

pub proof fn lemma_tag_name_end_bounds(s: Seq<char>, i: int)
    requires
        0 <= i <= s.len(),
    ensures
        i <= tag_name_end(s, i) <= s.len(),
    decreases s.len() - i,
{
    if i < s.len() && !is_name_end(s[i]) {
        lemma_tag_name_end_bounds(s, i + 1);
    }
}

fn tag_name_end_exec(s: &str, i: usize) -> (r: usize)
    requires
        i <= s@.len(),
    ensures
        r == tag_name_end(s@, i as int),
        i <= r <= s@.len(),
    decreases s@.len() - i,
{
    proof { lemma_tag_name_end_bounds(s@, i as int); }
    if i >= s.unicode_len() {
        s.unicode_len()
    } else if is_ws_char(s.get_char(i)) || s.get_char(i) == '>' || s.get_char(i) == '/' {
        i
    } else {
        tag_name_end_exec(s, i + 1)
    }
}

/// Characters that end an attribute name.
pub open spec fn is_attr_name_end(c: char) -> bool {
    is_ws(c) || c == '=' || c == '>' || c == '/'
}

pub open spec fn attr_name_end(s: Seq<char>, i: int) -> int
    decreases s.len() - i when 0 <= i <= s.len()
{
    if i >= s.len() {
        s.len() as int
    } else if is_attr_name_end(s[i]) {
        i
    } else {
        attr_name_end(s, i + 1)
    }
}

pub proof fn lemma_attr_name_end_bounds(s: Seq<char>, i: int)
    requires
        0 <= i <= s.len(),
    ensures
        i <= attr_name_end(s, i) <= s.len(),
    decreases s.len() - i,
{
    if i < s.len() && !is_attr_name_end(s[i]) {
        lemma_attr_name_end_bounds(s, i + 1);
    }
}

fn attr_name_end_exec(s: &str, i: usize) -> (r: usize)
    requires
        i <= s@.len(),
    ensures
        r == attr_name_end(s@, i as int),
        i <= r <= s@.len(),
    decreases s@.len() - i,
{
    proof { lemma_attr_name_end_bounds(s@, i as int); }
    if i >= s.unicode_len() {
        s.unicode_len()
    } else if is_ws_char(s.get_char(i)) || s.get_char(i) == '=' || s.get_char(i) == '>'
        || s.get_char(i) == '/' {
        i
    } else {
        attr_name_end_exec(s, i + 1)
    }
}

/// Result of scanning the attribute region of a start tag: the attributes,
/// the index just past the closing `>`, and whether the tag closed itself.
#[verifier::ext_equal]
pub ghost struct AttrScan {
    pub attrs: Seq<AttrModel>,
    pub next: int,
    pub self_closing: bool,
}

/// Scans `name="value"` pairs until the tag closes. Anything that does not
/// look like such a pair is stepped over without aborting the scan.
pub open spec fn scan_attrs(s: Seq<char>, i: int) -> AttrScan
    decreases s.len() - i when 0 <= i <= s.len() via scan_attrs_dec
{
    if i >= s.len() {
        AttrScan { attrs: seq![], next: s.len() as int, self_closing: false }
    } else if s[i] == '>' {
        AttrScan { attrs: seq![], next: i + 1, self_closing: false }
    } else if s[i] == '/' && i + 1 < s.len() && s[i + 1] == '>' {
        AttrScan { attrs: seq![], next: i + 2, self_closing: true }
    } else if is_ws(s[i]) || s[i] == '/' || s[i] == '=' {
        scan_attrs(s, i + 1)
    } else {
        let j = attr_name_end(s, i);
        if j + 1 < s.len() && s[j] == '=' && s[j + 1] == '"' {
            let k = find_ch(s, j + 2, '"');
            let rest = scan_attrs(s, if k + 1 <= s.len() { k + 1 } else { s.len() as int });
            AttrScan {
                attrs: seq![AttrModel { name: s.subrange(i, j), value: s.subrange(j + 2, k) }]
                    + rest.attrs,
                next: rest.next,
                self_closing: rest.self_closing,
            }
        } else {
            scan_attrs(s, j)
        }
    }
}

#[via_fn]
proof fn scan_attrs_dec(s: Seq<char>, i: int) {
    if 0 <= i < s.len() {
        lemma_attr_name_end_bounds(s, i + 1);
        let j = attr_name_end(s, i);
        if !(s[i] == '>' || (s[i] == '/' && i + 1 < s.len() && s[i + 1] == '>') || is_ws(s[i])
            || s[i] == '/' || s[i] == '=') {
            assert(!is_attr_name_end(s[i]));
            assert(j > i);
            if j + 1 < s.len() && s[j] == '=' && s[j + 1] == '"' {
                lemma_find_ch_bounds(s, j + 2, '"');
            }
        }
    }
}

pub proof fn lemma_scan_attrs_bounds(s: Seq<char>, i: int)
    requires
        0 <= i <= s.len(),
    ensures
        i <= scan_attrs(s, i).next <= s.len(),
        i < s.len() ==> scan_attrs(s, i).next > i,
    decreases s.len() - i,
{
    if i < s.len() {
        if s[i] == '>' || (s[i] == '/' && i + 1 < s.len() && s[i + 1] == '>') {
        } else if is_ws(s[i]) || s[i] == '/' || s[i] == '=' {
            lemma_scan_attrs_bounds(s, i + 1);
        } else {
            lemma_attr_name_end_bounds(s, i + 1);
            let j = attr_name_end(s, i);
            assert(!is_attr_name_end(s[i]));
            assert(j > i);
            if j + 1 < s.len() && s[j] == '=' && s[j + 1] == '"' {
                lemma_find_ch_bounds(s, j + 2, '"');
                let k = find_ch(s, j + 2, '"');
                let k2 = if k + 1 <= s.len() { k + 1 } else { s.len() as int };
                lemma_scan_attrs_bounds(s, k2);
            } else {
                lemma_scan_attrs_bounds(s, j);
            }
        }
    }
}

fn scan_attrs_exec(s: &str, i: usize) -> (r: (Vec<Attr>, usize, bool))
    requires
        i <= s@.len(),
    ensures
        attr_models(r.0@) == scan_attrs(s@, i as int).attrs,
        r.1 == scan_attrs(s@, i as int).next,
        r.2 == scan_attrs(s@, i as int).self_closing,
        i <= r.1 <= s@.len(),
    decreases s@.len() - i,
{
    proof { lemma_scan_attrs_bounds(s@, i as int); }
    let n = s.unicode_len();
    if i >= n {
        proof { assert(attr_models(Seq::<Attr>::empty()) =~= seq![]); }
        (Vec::new(), n, false)
    } else if s.get_char(i) == '>' {
        proof { assert(attr_models(Seq::<Attr>::empty()) =~= seq![]); }
        (Vec::new(), i + 1, false)
    } else if s.get_char(i) == '/' && i + 1 < n && s.get_char(i + 1) == '>' {
        proof { assert(attr_models(Seq::<Attr>::empty()) =~= seq![]); }
        (Vec::new(), i + 2, true)
    } else if is_ws_char(s.get_char(i)) || s.get_char(i) == '/' || s.get_char(i) == '=' {
        scan_attrs_exec(s, i + 1)
    } else {
        let j = attr_name_end_exec(s, i);
        proof {
            lemma_attr_name_end_bounds(s@, i as int + 1);
            assert(!is_attr_name_end(s@[i as int]));
            assert(j > i);
        }
        if j < n && j + 1 < n && s.get_char(j) == '=' && s.get_char(j + 1) == '"' {
            let k = find_ch_exec(s, j + 2, '"');
            let k2 = if k < n { k + 1 } else { n };
            let (mut rest, next, sc) = scan_attrs_exec(s, k2);
            let a = Attr {
                name: s.substring_char(i, j).to_owned(),
                value: s.substring_char(j + 2, k).to_owned(),
            };
            proof {
                assert(rest@.insert(0, a) =~= seq![a] + rest@);
                assert(attr_models(seq![a] + rest@) =~= seq![a@] + attr_models(rest@));
            }
            rest.insert(0, a);
            (rest, next, sc)
        } else {
            scan_attrs_exec(s, j)
        }
    }
}

/// One scanner step: the token beginning at `i` and where the next begins.
#[verifier::ext_equal]
pub ghost struct TokenStep {
    pub tok: TokenModel,
    pub next: int,
}

pub open spec fn next_token_spec(s: Seq<char>, i: int) -> TokenStep
    recommends
        0 <= i <= s.len(),
{
    if i >= s.len() {
        TokenStep { tok: TokenModel::Eof, next: s.len() as int }
    } else if s[i] == '<' {
        if i + 1 < s.len() && s[i + 1] == '/' {
            let j = find_ch(s, i + 2, '>');
            TokenStep {
                tok: TokenModel::End { name: s.subrange(i + 2, j) },
                next: if j + 1 <= s.len() { j + 1 } else { s.len() as int },
            }
        } else if i + 1 < s.len() && (s[i + 1] == '?' || s[i + 1] == '!') {
            if i + 9 <= s.len() && s.subrange(i, i + 9) == "<![CDATA["@ {
                let j = find_cdata_end(s, i + 9);
                TokenStep {
                    tok: TokenModel::Cdata { text: s.subrange(i + 9, j) },
                    next: if j + 3 <= s.len() { j + 3 } else { s.len() as int },
                }
            } else {
                let j = find_ch(s, i + 1, '>');
                TokenStep {
                    tok: TokenModel::Skip,
                    next: if j + 1 <= s.len() { j + 1 } else { s.len() as int },
                }
            }
        } else if i + 1 >= s.len() {
            TokenStep { tok: TokenModel::Eof, next: s.len() as int }
        } else {
            let j = tag_name_end(s, i + 1);
            let sc = scan_attrs(s, j);
            TokenStep {
                tok: TokenModel::Start {
                    name: s.subrange(i + 1, j),
                    attrs: sc.attrs,
                    self_closing: sc.self_closing,
                },
                next: sc.next,
            }
        }
    } else {
        let j = find_ch(s, i, '<');
        TokenStep { tok: TokenModel::Text { text: s.subrange(i, j) }, next: j }
    }
}

/// The scanner always moves forward and stays inside the document.
pub proof fn lemma_next_token_progress(s: Seq<char>, i: int)
    requires
        0 <= i <= s.len(),
    ensures
        i <= next_token_spec(s, i).next <= s.len(),
        i < s.len() ==> next_token_spec(s, i).next > i,
{
    if i < s.len() {
        if s[i] == '<' {
            if i + 1 < s.len() && s[i + 1] == '/' {
                lemma_find_ch_bounds(s, i + 2, '>');
            } else if i + 1 < s.len() && (s[i + 1] == '?' || s[i + 1] == '!') {
                if i + 9 <= s.len() && s.subrange(i, i + 9) == "<![CDATA["@ {
                    lemma_find_cdata_end_bounds(s, i + 9);
                } else {
                    lemma_find_ch_bounds(s, i + 1, '>');
                }
            } else if i + 1 >= s.len() {
            } else {
                lemma_tag_name_end_bounds(s, i + 1);
                lemma_scan_attrs_bounds(s, tag_name_end(s, i + 1));
            }
        } else {
            lemma_find_ch_bounds(s, i + 1, '<');
            assert(find_ch(s, i, '<') > i);
        }
    }
}

pub fn next_token(s: &str, i: usize) -> (r: (XmlToken, usize))
    requires
        i <= s@.len(),
    ensures
        r.0@ == next_token_spec(s@, i as int).tok,
        r.1 == next_token_spec(s@, i as int).next,
        i <= r.1 <= s@.len(),
        i < s@.len() ==> r.1 > i,
{
    proof { lemma_next_token_progress(s@, i as int); }
    let n = s.unicode_len();
    if i >= n {
        (XmlToken::Eof, n)
    } else if s.get_char(i) == '<' {
        if i + 1 < n && s.get_char(i + 1) == '/' {
            let j = find_ch_exec(s, i + 2, '>');
            let name = s.substring_char(i + 2, j).to_owned();
            let next = if j < n { j + 1 } else { n };
            (XmlToken::End { name }, next)
        } else if i + 1 < n && (s.get_char(i + 1) == '?' || s.get_char(i + 1) == '!') {
            if n >= 9 && i <= n - 9 && str_eq(s.substring_char(i, i + 9), "<![CDATA[") {
                let j = find_cdata_end_exec(s, i + 9);
                let text = s.substring_char(i + 9, j).to_owned();
                let next = if n >= 3 && j <= n - 3 { j + 3 } else { n };
                (XmlToken::Cdata { text }, next)
            } else {
                let j = find_ch_exec(s, i + 1, '>');
                let next = if j < n { j + 1 } else { n };
                (XmlToken::Skip, next)
            }
        } else if i + 1 >= n {
            (XmlToken::Eof, n)
        } else {
            let j = tag_name_end_exec(s, i + 1);
            let (attrs, next, self_closing) = scan_attrs_exec(s, j);
            let name = s.substring_char(i + 1, j).to_owned();
            (XmlToken::Start { name, attrs, self_closing }, next)
        }
    } else {
        let j = find_ch_exec(s, i, '<');
        let text = s.substring_char(i, j).to_owned();
        (XmlToken::Text { text }, j)
    }
}

/// The whole token stream of a document from position `i` on.
pub open spec fn tokens_from(s: Seq<char>, i: int) -> Seq<TokenModel>
    decreases s.len() - i when 0 <= i <= s.len() via tokens_from_dec
{
    if i >= s.len() {
        seq![]
    } else {
        let st = next_token_spec(s, i);
        if st.next <= i || st.next > s.len() {
            seq![]
        } else {
            seq![st.tok] + tokens_from(s, st.next)
        }
    }
}

#[via_fn]
proof fn tokens_from_dec(s: Seq<char>, i: int) {
}

} // verus!
