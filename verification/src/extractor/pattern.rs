//! Regular-expression search, through the `regex` crate.
use vstd::prelude::*;
use vstd::string::StringSliceAdditionalSpecFns;
use vstd::string::StringExecFns;
use vstd::utf8::{decode_utf8, encode_utf8, is_char_boundary};

verus! {

/// One match: its byte span in the text and the text of each group (group 0 is the
/// whole match; a group that took no part is `None`).
pub struct Capture {
    pub start: usize,
    pub end: usize,
    pub groups: Vec<Option<String>>,
}

pub type CaptureView = (int, int, Seq<Option<Seq<char>>>);

pub open spec fn group_views(g: Seq<Option<String>>) -> Seq<Option<Seq<char>>> {
    g.map_values(|o: Option<String>| crate::models::ostr(o))
}

impl View for Capture {
    type V = CaptureView;

    open spec fn view(&self) -> CaptureView {
        (self.start as int, self.end as int, group_views(self.groups@))
    }
}

pub open spec fn capture_views(v: Seq<Capture>) -> Seq<CaptureView> {
    v.map_values(|c: Capture| c@)
}

/// Every group of the match that took part is a piece of the text.
pub open spec fn groups_in(text: Seq<char>, c: CaptureView) -> bool {
    forall|k: int| 0 <= k < c.2.len() ==> (#[trigger] c.2[k] matches Some(s) ==> crate::text::contains_seq(text, s))
}

/// What `Regex::new(pattern)` and `captures_iter(text)` yield: the successive
/// non-overlapping matches, or `None` when the pattern does not compile.
pub uninterp spec fn regex_captures(pattern: Seq<char>, text: Seq<char>) -> Option<Seq<CaptureView>>;

/// Every match of `pattern` in `text`, left to right (`regex::Regex::captures_iter`).
/// The matches are named, not described; what is claimed beside the name is what
/// the `regex` documentation guarantees of a match: its start is not after its end,
/// both are character boundaries of the text, group 0 is always there and is the
/// text between them, and every group that took part is a piece of the text
/// (`Match::as_str` is the haystack between the group's start and end).
#[verifier::external_body]
pub(crate) fn captures_all(pattern: &str, text: &str) -> (r: Option<Vec<Capture>>)
    ensures
        r matches Some(v) ==> regex_captures(pattern@, text@) == Some(capture_views(v@)),
        r is None ==> regex_captures(pattern@, text@) is None,
        r matches Some(v) ==> forall|i: int|
            0 <= i < v@.len() ==> #[trigger] v@[i].start <= v@[i].end <= text.spec_bytes().len() && is_char_boundary(
                text.spec_bytes(),
                v@[i].start as int,
            ) && is_char_boundary(text.spec_bytes(), v@[i].end as int),
        r matches Some(v) ==> forall|i: int|
            0 <= i < v@.len() ==> (#[trigger] v@[i]).groups@.len() > 0 && crate::models::ostr(v@[i].groups@[0]) == Some(
                decode_utf8(text.spec_bytes().subrange(v@[i].start as int, v@[i].end as int)),
            ),
        r matches Some(v) ==> forall|i: int| 0 <= i < v@.len() ==> groups_in(text@, #[trigger] capture_views(v@)[i]),
{
    let re = regex::Regex::new(pattern).ok()?;
    Some(
        re.captures_iter(text).map(|c| {
            let whole = c.get(0).map(|m| (m.start(), m.end())).unwrap_or((0, 0));
            Capture {
                start: whole.0,
                end: whole.1,
                groups: c.iter().map(|g| g.map(|m| m.as_str().to_string())).collect(),
            }
        }).collect(),
    )
}

/// The matches of `pattern` in `text`, none when the pattern does not compile.
pub open spec fn matches_of(pattern: Seq<char>, text: Seq<char>) -> Seq<CaptureView> {
    match regex_captures(pattern, text) {
        Some(v) => v,
        None => seq![],
    }
}

/// Group `i` of a match, `None` when it took no part.
pub open spec fn group(c: CaptureView, i: int) -> Option<Seq<char>> {
    if 0 <= i < c.2.len() {
        c.2[i]
    } else {
        None
    }
}

/// A group of a match whose groups are pieces of the text is a piece of it (the
/// empty text, for a group that took no part, is too).
pub proof fn lemma_group_text_in(text: Seq<char>, c: CaptureView, i: int)
    requires
        groups_in(text, c),
    ensures
        crate::text::contains_seq(text, group_text(c, i)),
{
    if !(0 <= i < c.2.len() && c.2[i] is Some) {
        assert(crate::text::occurs_at(text, group_text(c, i), 0)) by {
            assert(text.subrange(0, 0) =~= group_text(c, i));
        }
    }
}

/// The text of group `i`, empty when it took no part.
pub open spec fn group_text(c: CaptureView, i: int) -> Seq<char> {
    match group(c, i) {
        Some(s) => s,
        None => seq![],
    }
}

/// `pattern` matches somewhere in `text`.
pub open spec fn is_match(pattern: Seq<char>, text: Seq<char>) -> bool {
    matches_of(pattern, text).len() > 0
}

/// The matches of `pattern` in `text` (none when the pattern does not compile).
pub fn find_all(pattern: &str, text: &str) -> (r: Vec<Capture>)
    ensures
        capture_views(r@) == matches_of(pattern@, text@),
        forall|i: int|
            0 <= i < r@.len() ==> #[trigger] r@[i].start <= r@[i].end <= text.spec_bytes().len() && is_char_boundary(
                text.spec_bytes(),
                r@[i].start as int,
            ) && is_char_boundary(text.spec_bytes(), r@[i].end as int),
        forall|i: int|
            0 <= i < r@.len() ==> group(#[trigger] capture_views(r@)[i], 0) == Some(
                decode_utf8(text.spec_bytes().subrange(r@[i].start as int, r@[i].end as int)),
            ),
        forall|i: int| 0 <= i < r@.len() ==> groups_in(text@, #[trigger] capture_views(r@)[i]),
{
    match captures_all(pattern, text) {
        Some(v) => v,
        None => {
            let v: Vec<Capture> = Vec::new();
            assert(capture_views(v@) =~= Seq::<CaptureView>::empty());
            v
        },
    }
}

/// Whether `pattern` matches somewhere in `text`.
pub fn has_match(pattern: &str, text: &str) -> (b: bool)
    ensures
        b == is_match(pattern@, text@),
{
    let v = find_all(pattern, text);
    v.len() > 0
}

/// Group `i` of a match, as a string; `None` when it took no part.
pub fn group_of(c: &Capture, i: usize) -> (r: Option<&String>)
    ensures
        r matches Some(s) ==> group(c@, i as int) == Some(s@),
        r is None ==> group(c@, i as int) is None,
{
    if i < c.groups.len() {
        match &c.groups[i] {
            Some(s) => Some(s),
            None => None,
        }
    } else {
        None
    }
}

/// The text of group `i`, empty when it took no part.
pub fn group_string(c: &Capture, i: usize) -> (r: String)
    ensures
        r@ == group_text(c@, i as int),
{
    match group_of(c, i) {
        Some(s) => s.clone(),
        None => String::new(),
    }
}

/// `text` without its first match of `pattern` (`Regex::replace` with an empty
/// replacement): the text before the match and the text after it.
pub open spec fn removed_first(pattern: Seq<char>, text: Seq<char>) -> Seq<char> {
    let ms = matches_of(pattern, text);
    let b = encode_utf8(text);
    if ms.len() == 0 {
        text
    } else {
        decode_utf8(b.subrange(0, ms[0].0)) + decode_utf8(b.subrange(ms[0].1, b.len() as int))
    }
}

/// `text` without its first match of `pattern`.
pub fn remove_first(pattern: &str, text: &str) -> (r: String)
    ensures
        r@ == removed_first(pattern@, text@),
{
    let ms = find_all(pattern, text);
    if ms.len() == 0 {
        return text.to_owned();
    }
    let ghost b = text.spec_bytes();
    let (before, _) = text.split_at(ms[0].start);
    let (_, after) = text.split_at(ms[0].end);
    proof {
        vstd::utf8::encode_utf8_decode_utf8(before@);
        vstd::utf8::encode_utf8_decode_utf8(after@);
    }
    let mut r = before.to_owned();
    r.append(after);
    r
}

} // verus!
