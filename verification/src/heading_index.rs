//! Lookup of the heading path that is active at an offset of a document.
use crate::types::{headings_view, HeadingInfo, HeadingView};
use vstd::prelude::*;
use vstd::string::*;

verus! {

/// Whether heading `i` is the one that is active at `offset`: of the headings
/// that begin at or before `offset` it begins last, and of several that begin
/// at the same place it stands last in the list.
pub open spec fn is_active_heading(headings: Seq<HeadingView>, offset: int, i: int) -> bool {
    &&& 0 <= i < headings.len()
    &&& headings[i].char_offset <= offset
    &&& forall|j: int|
        0 <= j < headings.len() && (#[trigger] headings[j]).char_offset <= offset ==> {
            ||| headings[j].char_offset < headings[i].char_offset
            ||| (headings[j].char_offset == headings[i].char_offset && j <= i)
        }
}

/// Whether any heading begins at or before `offset`.
pub open spec fn has_active_heading(headings: Seq<HeadingView>, offset: int) -> bool {
    exists|i: int| 0 <= i < headings.len() && (#[trigger] headings[i]).char_offset <= offset
}

/// The heading that is active at `offset`, where there is one.
pub open spec fn active_heading(headings: Seq<HeadingView>, offset: int) -> int {
    choose|i: int| is_active_heading(headings, offset, i)
}

/// The texts of the ancestors that a heading of depth `level` has among the
/// first `n` headings, the outermost first: going backwards, each heading
/// that lies less deep than the last one taken is taken.
pub open spec fn ancestor_texts(headings: Seq<HeadingView>, n: int, level: u32) -> Seq<Seq<char>>
    decreases n,
{
    if n <= 0 {
        Seq::empty()
    } else if headings[n - 1].level < level {
        ancestor_texts(headings, n - 1, headings[n - 1].level).push(headings[n - 1].text)
    } else {
        ancestor_texts(headings, n - 1, level)
    }
}

/// The texts of heading `i` and of its ancestors, the outermost first.
pub open spec fn breadcrumb_parts(headings: Seq<HeadingView>, i: int) -> Seq<Seq<char>> {
    ancestor_texts(headings, i, headings[i].level).push(headings[i].text)
}

/// What stands between two parts of a breadcrumb.
pub open spec fn breadcrumb_separator() -> Seq<char> {
    seq![' ', '>', ' ']
}

/// The parts of a breadcrumb, joined by the separator.
pub open spec fn join_parts(parts: Seq<Seq<char>>) -> Seq<char>
    decreases parts.len(),
{
    if parts.len() == 0 {
        Seq::empty()
    } else if parts.len() == 1 {
        parts[0]
    } else {
        join_parts(parts.drop_last()) + breadcrumb_separator() + parts.last()
    }
}

/// The breadcrumb of the heading path that is active at `offset`, if any
/// heading begins at or before `offset`.
pub open spec fn context_at_spec(headings: Seq<HeadingView>, offset: int) -> Option<Seq<char>> {
    if has_active_heading(headings, offset) {
        Some(join_parts(breadcrumb_parts(headings, active_heading(headings, offset))))
    } else {
        None
    }
}

/// The view of an optional string.
pub open spec fn option_text(text: Option<String>) -> Option<Seq<char>> {
    match text {
        Some(s) => Some(s@),
        None => None,
    }
}

/// At most one heading is active at an offset.
pub proof fn lemma_active_heading_is_unique(headings: Seq<HeadingView>, offset: int, i: int)
    requires
        is_active_heading(headings, offset, i),
    ensures
        has_active_heading(headings, offset),
        i == active_heading(headings, offset),
{
    let k = active_heading(headings, offset);
    assert(is_active_heading(headings, offset, k));
}

/// Whether the headings stand in the order of their offsets.
pub open spec fn is_sorted_by_offset(headings: Seq<HeadingView>) -> bool {
    forall|i: int, j: int|
        0 <= i <= j < headings.len() ==> (#[trigger] headings[i]).char_offset <= (
        #[trigger] headings[j]).char_offset
}

/// Among headings that stand in the order of their offsets, the active one
/// is the last that begins at or before the offset.
pub proof fn lemma_active_heading_of_sorted(headings: Seq<HeadingView>, offset: int, i: int)
    requires
        is_sorted_by_offset(headings),
        0 <= i < headings.len(),
        headings[i].char_offset <= offset,
        i + 1 < headings.len() ==> headings[i + 1].char_offset > offset,
    ensures
        has_active_heading(headings, offset),
        active_heading(headings, offset) == i,
{
    assert forall|j: int|
        0 <= j < headings.len() && (#[trigger] headings[j]).char_offset <= offset implies {
        ||| headings[j].char_offset < headings[i].char_offset
        ||| (headings[j].char_offset == headings[i].char_offset && j <= i)
    } by {
        if j > i {
            assert(headings[i + 1].char_offset <= headings[j].char_offset);
        }
    }
    lemma_active_heading_is_unique(headings, offset, i);
}

/// The texts of the headings whose indices `chain` lists, in reverse order.
spec fn reversed_texts(headings: Seq<HeadingView>, chain: Seq<usize>) -> Seq<Seq<char>> {
    Seq::new(chain.len(), |k: int| headings[chain[chain.len() - 1 - k] as int].text)
}

/// Answers, for the headings of one document, which heading path is active
/// at an offset.
pub struct HeadingIndex<'a> {
    headings: &'a Vec<HeadingInfo>,
}

impl<'a> View for HeadingIndex<'a> {
    type V = Seq<HeadingView>;

    closed spec fn view(&self) -> Seq<HeadingView> {
        headings_view(self.headings@)
    }
}

impl<'a> HeadingIndex<'a> {
    /// An index over the given headings, which stand in document order.
    pub fn new(headings: &'a Vec<HeadingInfo>) -> (index: Self)
        ensures
            index@ == headings_view(headings@),
    {
        HeadingIndex { headings }
    }

    /// The heading that is active at `offset`, if any.
    fn find_active(&self, offset: usize) -> (found: Option<usize>)
        ensures
            match found {
                Some(i) => is_active_heading(self@, offset as int, i as int),
                None => !has_active_heading(self@, offset as int),
            },
    {
        let ghost views = self@;
        let mut found: Option<usize> = None;
        let mut i: usize = 0;
        while i < self.headings.len()
            invariant
                views == self@,
                views.len() == self.headings.len(),
                i <= views.len(),
                match found {
                    Some(b) => {
                        &&& b < i
                        &&& views[b as int].char_offset <= offset
                        &&& forall|j: int|
                            0 <= j < i && (#[trigger] views[j]).char_offset <= offset ==> {
                                ||| views[j].char_offset < views[b as int].char_offset
                                ||| (views[j].char_offset == views[b as int].char_offset && j <= b)
                            }
                    },
                    None => forall|j: int| 0 <= j < i ==> (#[trigger] views[j]).char_offset > offset,
                },
            decreases self.headings.len() - i,
        {
            let here = self.headings[i].char_offset;
            if here <= offset {
                match found {
                    Some(b) => {
                        if here >= self.headings[b].char_offset {
                            found = Some(i);
                        }
                    },
                    None => {
                        found = Some(i);
                    },
                }
            }
            i = i + 1;
        }
        found
    }

    /// The breadcrumb of the heading path that is active at `offset`.
    ///
    /// The active heading is the one that begins last among those that begin
    /// at or before `offset`; without one the result is `None`. The breadcrumb
    /// names its ancestors by decreasing depth, the outermost first, then the
    /// heading itself, joined by `" > "`.
    pub fn context_at(&self, offset: usize) -> (context: Option<String>)
        ensures
            option_text(context) == context_at_spec(self@, offset as int),
    {
        let ghost views = self@;
        let active = match self.find_active(offset) {
            Some(i) => i,
            None => {
                return None;
            },
        };
        proof {
            lemma_active_heading_is_unique(views, offset as int, active as int);
        }
        let ghost parts = breadcrumb_parts(views, active as int);
        let mut chain: Vec<usize> = Vec::new();
        chain.push(active);
        let mut level = self.headings[active].level;
        let mut j: usize = active;
        while j > 0
            invariant
                views == self@,
                views.len() == self.headings.len(),
                j <= active < views.len(),
                chain@.len() >= 1,
                forall|k: int| 0 <= k < chain@.len() ==> (#[trigger] chain@[k]) < views.len(),
                parts == ancestor_texts(views, j as int, level) + reversed_texts(views, chain@),
            decreases j,
        {
            let ghost before = chain@;
            j = j - 1;
            if self.headings[j].level < level {
                chain.push(j);
                level = self.headings[j].level;
                assert(reversed_texts(views, chain@) =~= seq![views[j as int].text]
                    + reversed_texts(views, before));
            }
        }
        let mut out = String::new();
        let mut m: usize = 0;
        while m < chain.len()
            invariant
                views == self@,
                views.len() == self.headings.len(),
                m <= chain@.len(),
                chain@.len() >= 1,
                forall|k: int| 0 <= k < chain@.len() ==> (#[trigger] chain@[k]) < views.len(),
                parts == reversed_texts(views, chain@),
                out@ == join_parts(parts.take(m as int)),
            decreases chain.len() - m,
        {
            let at = chain[chain.len() - 1 - m];
            assert(parts.take(m + 1).drop_last() =~= parts.take(m as int));
            if m > 0 {
                proof {
                    reveal_strlit(" > ");
                }
                out.append(" > ");
            }
            out.append(self.headings[at].text.as_str());
            m = m + 1;
        }
        assert(parts.take(chain@.len() as int) =~= parts);
        Some(out)
    }
}

} // verus!
