//! Parsing of the inline markup grammar.
//!
//! The grammar, read left to right: `[[` and `]]` are escapes for the
//! literal brackets; `[a,b,...]` is a tag block activating the named tags
//! for the text that follows; a bare `]` is tolerated as a literal; every
//! other character belongs to the current text run. A `[` that is never
//! closed (or whose block would contain another `[`) has no reading in the
//! grammar; the whole input then degrades to one literal section.

use vstd::prelude::*;
use vstd::string::StrSliceExecFns;

verus! {

/// A parser event: either a block of tag names becoming active, or a run
/// of literal text (with escapes already reduced).
#[verifier::ext_equal]
pub enum SpecEvent {
    Tags(Seq<Seq<char>>),
    Text(Seq<char>),
}

/// The index of the `]` closing a tag block whose contents start at `i`,
/// or `None` if the block is never closed or would contain a `[`.
pub open spec fn find_close(s: Seq<char>, i: int) -> Option<int>
    decreases s.len() - i,
{
    if i < 0 || i >= s.len() {
        None
    } else if s[i] == ']' {
        Some(i)
    } else if s[i] == '[' {
        None
    } else {
        find_close(s, i + 1)
    }
}

pub proof fn lemma_find_close(s: Seq<char>, i: int)
    requires
        0 <= i <= s.len(),
    ensures
        match find_close(s, i) {
            Some(j) => i <= j < s.len() && s[j] == ']' && (forall|k: int|
                i <= k < j ==> s[k] != ']' && s[k] != '['),
            None => true,
        },
    decreases s.len() - i,
{
    if i < s.len() && s[i] != ']' && s[i] != '[' {
        lemma_find_close(s, i + 1);
    }
}

/// Splits tag-block contents on commas, reading from position `i` with the
/// partial name `cur` and the names already produced in `acc`. Every name
/// is the raw text between two commas, the empty name included.
pub open spec fn split_from(content: Seq<char>, i: int, cur: Seq<char>, acc: Seq<Seq<char>>) -> Seq<
    Seq<char>,
>
    decreases content.len() - i,
{
    if i < 0 || i >= content.len() {
        acc.push(cur)
    } else if content[i] == ',' {
        split_from(content, i + 1, Seq::empty(), acc.push(cur))
    } else {
        split_from(content, i + 1, cur.push(content[i]), acc)
    }
}

/// The ordered tag names of a tag block with the given contents: nothing
/// for the empty block `[]`, otherwise the contents split on commas.
pub open spec fn block_tags(content: Seq<char>) -> Seq<Seq<char>> {
    if content.len() == 0 {
        Seq::empty()
    } else {
        split_from(content, 0, Seq::empty(), Seq::empty())
    }
}

/// The event list of the markup, scanning from position `i` with the
/// pending text run `cur` and the events already produced in `acc`.
/// `None` means the input has no reading in the grammar.
pub open spec fn scan_from(s: Seq<char>, i: int, cur: Seq<char>, acc: Seq<SpecEvent>) -> Option<
    Seq<SpecEvent>,
>
    decreases s.len() - i,
{
    if i < 0 || i >= s.len() {
        if cur.len() > 0 {
            Some(acc.push(SpecEvent::Text(cur)))
        } else {
            Some(acc)
        }
    } else if s[i] == '[' && i + 1 < s.len() && s[i + 1] == '[' {
        scan_from(s, i + 2, cur.push('['), acc)
    } else if s[i] == ']' && i + 1 < s.len() && s[i + 1] == ']' {
        scan_from(s, i + 2, cur.push(']'), acc)
    } else if s[i] == ']' {
        scan_from(s, i + 1, cur.push(']'), acc)
    } else if s[i] == '[' {
        match find_close(s, i + 1) {
            None => None,
            Some(j) => {
                proof {
                    lemma_find_close(s, i + 1);
                }
                let flushed = if cur.len() > 0 {
                    acc.push(SpecEvent::Text(cur))
                } else {
                    acc
                };
                scan_from(
                    s,
                    j + 1,
                    Seq::empty(),
                    flushed.push(SpecEvent::Tags(block_tags(s.subrange(i + 1, j)))),
                )
            },
        }
    } else {
        scan_from(s, i + 1, cur.push(s[i]), acc)
    }
}

/// The event list of a whole markup string, or `None` where the grammar
/// gives it no reading.
pub open spec fn spec_events(s: Seq<char>) -> Option<Seq<SpecEvent>> {
    scan_from(s, 0, Seq::empty(), Seq::empty())
}

/// Folds an event list into sections from event `i` on, carrying the tag
/// list most recently activated in `cur_tags` and the sections already
/// produced in `acc`. Each text run is paired with the active tags; a tag
/// block that closes the input contributes one section with empty text.
pub open spec fn fold_from(
    events: Seq<SpecEvent>,
    i: int,
    cur_tags: Seq<Seq<char>>,
    acc: Seq<(Seq<char>, Seq<Seq<char>>)>,
) -> Seq<(Seq<char>, Seq<Seq<char>>)>
    decreases events.len() - i,
{
    if i < 0 || i >= events.len() {
        if events.len() > 0 && events.last() is Tags {
            acc.push((Seq::empty(), cur_tags))
        } else {
            acc
        }
    } else {
        match events[i] {
            SpecEvent::Text(v) => fold_from(events, i + 1, cur_tags, acc.push((v, cur_tags))),
            SpecEvent::Tags(t) => fold_from(events, i + 1, t, acc),
        }
    }
}

/// The sections of an event list; an input that produced no section at all
/// still yields the one section with empty text and no tags.
pub open spec fn spec_sections(events: Seq<SpecEvent>) -> Seq<(Seq<char>, Seq<Seq<char>>)> {
    let folded = fold_from(events, 0, Seq::empty(), Seq::empty());
    if folded.len() == 0 {
        seq![(Seq::<char>::empty(), Seq::<Seq<char>>::empty())]
    } else {
        folded
    }
}

/// The sections of a markup string: the folded event list where the
/// grammar reads the input, and the whole input as one literal section
/// with no tags where it does not.
pub open spec fn spec_parse(s: Seq<char>) -> Seq<(Seq<char>, Seq<Seq<char>>)> {
    match spec_events(s) {
        Some(events) => spec_sections(events),
        None => seq![(s, Seq::<Seq<char>>::empty())],
    }
}

/// Empty input invariant: parsing the empty string yields exactly one
/// section, with empty value and no tags — never zero sections.
pub proof fn lemma_parse_empty()
    ensures
        spec_parse(Seq::<char>::empty()) == seq![
            (Seq::<char>::empty(), Seq::<Seq<char>>::empty()),
        ],
{
    assert(spec_events(Seq::<char>::empty()) == Some(Seq::<SpecEvent>::empty()));
    assert(fold_from(Seq::<SpecEvent>::empty(), 0, Seq::empty(), Seq::empty())
        == Seq::<(Seq<char>, Seq<Seq<char>>)>::empty());
}

/// A block of tag names becoming active, or a run of literal text with
/// escapes already reduced.
#[derive(Debug, PartialEq, Eq)]
pub enum TagsOrText {
    Tags(Vec<String>),
    Text(String),
}

impl DeepView for TagsOrText {
    type V = SpecEvent;

    open spec fn deep_view(&self) -> SpecEvent {
        match self {
            TagsOrText::Tags(tags) => SpecEvent::Tags(tags.deep_view()),
            TagsOrText::Text(value) => SpecEvent::Text(value@),
        }
    }
}

/// A contiguous run of text paired with the ordered list of tags active
/// where it was parsed.
#[derive(Debug, Default, PartialEq, Eq, Clone)]
pub struct TextSection {
    pub value: String,
    pub tags: Vec<String>,
}

impl DeepView for TextSection {
    type V = (Seq<char>, Seq<Seq<char>>);

    open spec fn deep_view(&self) -> (Seq<char>, Seq<Seq<char>>) {
        (self.value@, self.tags.deep_view())
    }
}

/// The input had no reading in the grammar: a tag block was opened and
/// never closed, or would have contained another opening bracket.
#[derive(Debug, PartialEq, Eq, Clone, Copy)]
pub struct ParseError;

/// Relies on `String::push`: appends the given character to the end of
/// the string.
#[verifier::external_body]
fn push_char(s: &mut String, c: char)
    ensures
        final(s)@ == old(s)@.push(c),
{
    s.push(c)
}

/// Searches for the `]` closing a tag block whose contents start at `i`.
#[verifier::loop_isolation(false)]
fn find_close_at(s: &str, n: usize, i: usize) -> (r: Option<usize>)
    requires
        n == s@.len(),
        i <= n,
    ensures
        match r {
            Some(j) => i <= j < n && find_close(s@, i as int) == Some(j as int),
            None => find_close(s@, i as int) is None,
        },
{
    let mut k = i;
    while k < n
        invariant
            i <= k <= n,
            find_close(s@, i as int) == find_close(s@, k as int),
        decreases n - k,
    {
        let c = s.get_char(k);
        if c == ']' {
            return Some(k);
        }
        if c == '[' {
            return None;
        }
        k = k + 1;
    }
    None
}

/// Copies a list of tag names.
#[verifier::loop_isolation(false)]
fn clone_tags(v: &Vec<String>) -> (r: Vec<String>)
    ensures
        r@ == v@,
{
    let mut r: Vec<String> = Vec::new();
    let mut i: usize = 0;
    while i < v.len()
        invariant
            i <= v.len(),
            r@ == v@.subrange(0, i as int),
        decreases v.len() - i,
    {
        r.push(v[i].clone());
        proof {
            assert(r@ =~= v@.subrange(0, i + 1 as int));
        }
        i = i + 1;
    }
    proof {
        assert(r@ =~= v@);
    }
    r
}

/// Splits the tag-block contents `s[start..end]` into its tag names.
#[verifier::loop_isolation(false)]
fn split_block(s: &str, n: usize, start: usize, end: usize) -> (r: Vec<String>)
    requires
        n == s@.len(),
        start <= end <= n,
    ensures
        r.deep_view() == block_tags(s@.subrange(start as int, end as int)),
{
    let ghost content = s@.subrange(start as int, end as int);
    let mut tags: Vec<String> = Vec::new();
    if start == end {
        proof {
            assert(tags.deep_view() =~= block_tags(content));
        }
        return tags;
    }
    let mut cur = String::new();
    let mut k = start;
    proof {
        assert(tags.deep_view() =~= Seq::<Seq<char>>::empty());
    }
    while k < end
        invariant
            start <= k <= end,
            split_from(content, 0, Seq::empty(), Seq::empty()) == split_from(
                content,
                k - start,
                cur@,
                tags.deep_view(),
            ),
        decreases end - k,
    {
        let ghost prev_tags = tags.deep_view();
        let ghost cur_view = cur@;
        let c = s.get_char(k);
        proof {
            assert(content[k - start] == s@[k as int]);
        }
        if c == ',' {
            tags.push(cur);
            cur = String::new();
            proof {
                assert(tags.deep_view() =~= prev_tags.push(cur_view));
            }
        } else {
            push_char(&mut cur, c);
        }
        k = k + 1;
    }
    let ghost prev_tags = tags.deep_view();
    tags.push(cur);
    proof {
        assert(tags.deep_view() =~= prev_tags.push(cur@));
        assert(tags.deep_view() == block_tags(content));
    }
    tags
}

/// Scans the markup into its event list: tag blocks and coalesced literal
/// text runs, in order of appearance. Returns an error exactly where the
/// grammar gives the input no reading (a `[` opened and never closed, or
/// a block that would contain another `[`).
#[verifier::loop_isolation(false)]
pub fn tags_or_text(input: &str) -> (r: Result<Vec<TagsOrText>, ParseError>)
    ensures
        match r {
            Ok(events) => spec_events(input@) == Some(events.deep_view()),
            Err(_) => spec_events(input@) is None,
        },
{
    let n = input.unicode_len();
    let mut events: Vec<TagsOrText> = Vec::new();
    let mut cur = String::new();
    let mut i: usize = 0;
    proof {
        assert(events.deep_view() =~= Seq::<SpecEvent>::empty());
    }
    while i < n
        invariant
            i <= n,
            spec_events(input@) == scan_from(input@, i as int, cur@, events.deep_view()),
        decreases n - i,
    {
        let ghost prev_events = events.deep_view();
        let ghost cur_view = cur@;
        let c = input.get_char(i);
        if c == '[' && i + 1 < n && input.get_char(i + 1) == '[' {
            push_char(&mut cur, '[');
            i = i + 2;
        } else if c == ']' && i + 1 < n && input.get_char(i + 1) == ']' {
            push_char(&mut cur, ']');
            i = i + 2;
        } else if c == ']' {
            push_char(&mut cur, ']');
            i = i + 1;
        } else if c == '[' {
            match find_close_at(input, n, i + 1) {
                None => {
                    return Err(ParseError);
                },
                Some(j) => {
                    let flushed = cur;
                    cur = String::new();
                    if !flushed.as_str().is_empty() {
                        events.push(TagsOrText::Text(flushed));
                        proof {
                            assert(events.deep_view() =~= prev_events.push(
                                SpecEvent::Text(cur_view),
                            ));
                        }
                    }
                    let ghost flushed_events = events.deep_view();
                    let block = split_block(input, n, i + 1, j);
                    events.push(TagsOrText::Tags(block));
                    proof {
                        assert(events.deep_view() =~= flushed_events.push(
                            SpecEvent::Tags(block_tags(input@.subrange(i + 1, j as int))),
                        ));
                    }
                    i = j + 1;
                },
            }
        } else {
            push_char(&mut cur, c);
            i = i + 1;
        }
    }
    if !cur.as_str().is_empty() {
        let ghost prev_events = events.deep_view();
        let ghost cur_view = cur@;
        events.push(TagsOrText::Text(cur));
        proof {
            assert(events.deep_view() =~= prev_events.push(SpecEvent::Text(cur_view)));
        }
    }
    Ok(events)
}

/// Parses markup into its ordered text sections. Total: malformed input
/// degrades to a single literal section with no tags, and any input yields
/// at least one section.
#[verifier::loop_isolation(false)]
pub fn parse_richtext(text: &str) -> (r: Vec<TextSection>)
    ensures
        r.deep_view() == spec_parse(text@),
        r.deep_view().len() > 0,
{
    let mut sections: Vec<TextSection> = Vec::new();
    let events = match tags_or_text(text) {
        Ok(events) => events,
        Err(_) => {
            sections.push(TextSection { value: text.to_owned(), tags: Vec::new() });
            proof {
                assert(sections.deep_view() =~~= spec_parse(text@));
            }
            return sections;
        },
    };
    let ghost evs = events.deep_view();
    let mut current_tags: Vec<String> = Vec::new();
    let m = events.len();
    let mut idx: usize = 0;
    proof {
        assert(sections.deep_view() =~= Seq::<(Seq<char>, Seq<Seq<char>>)>::empty());
        assert(current_tags.deep_view() =~= Seq::<Seq<char>>::empty());
    }
    while idx < m
        invariant
            idx <= m,
            fold_from(evs, 0, Seq::empty(), Seq::empty()) == fold_from(
                evs,
                idx as int,
                current_tags.deep_view(),
                sections.deep_view(),
            ),
        decreases m - idx,
    {
        let ghost prev_sections = sections.deep_view();
        match &events[idx] {
            TagsOrText::Text(value) => {
                let ghost value_view = value@;
                sections.push(TextSection { value: value.clone(), tags: clone_tags(&current_tags) });
                proof {
                    assert(sections.deep_view() =~= prev_sections.push(
                        (value_view, current_tags.deep_view()),
                    ));
                }
            },
            TagsOrText::Tags(tags) => {
                current_tags = clone_tags(tags);
            },
        }
        idx = idx + 1;
    }
    let last_is_tags = if m > 0 {
        match &events[m - 1] {
            TagsOrText::Tags(_) => true,
            TagsOrText::Text(_) => false,
        }
    } else {
        false
    };
    if last_is_tags {
        let ghost prev_sections = sections.deep_view();
        let ghost ct_view = current_tags.deep_view();
        sections.push(TextSection { value: String::new(), tags: current_tags });
        proof {
            assert(sections.deep_view() =~= prev_sections.push((Seq::<char>::empty(), ct_view)));
        }
    }
    if sections.len() == 0 {
        sections.push(TextSection { value: String::new(), tags: Vec::new() });
        proof {
            assert(sections.deep_view() =~~= seq![
                (Seq::<char>::empty(), Seq::<Seq<char>>::empty()),
            ]);
        }
    }
    sections
}

} // verus!
