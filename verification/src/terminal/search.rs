//! Search in the scrollback: results, navigation, and what a frame shows of them.

use vstd::prelude::*;
use vstd::string::*;
use crate::text;

use alacritty_terminal::term::search::RegexSearch;

verus! {

/// How long results may stay unrefreshed while the terminal keeps printing, in
/// milliseconds.
pub const LIVE_REFRESH_INTERVAL: u64 = 250;

/// A position in the grid: line 0 is the top of the screen, history is above it.
#[derive(Clone, Copy, Debug, PartialEq, Eq, Structural)]
pub struct GridPoint {
    pub line: i32,
    pub column: usize,
}

impl GridPoint {
    pub fn new(line: i32, column: usize) -> (point: GridPoint)
        ensures
            point.line == line,
            point.column == column,
    {
        GridPoint { line, column }
    }

    /// Reading order: by line, then by column.
    pub open spec fn not_after(self, other: GridPoint) -> bool {
        self.line < other.line || (self.line == other.line && self.column <= other.column)
    }

    pub fn is_not_after(self, other: GridPoint) -> (before: bool)
        ensures
            before == self.not_after(other),
    {
        self.line < other.line || (self.line == other.line && self.column <= other.column)
    }
}

/// One occurrence of the query, from its first to its last cell.
#[derive(Clone, Copy, Debug, PartialEq, Eq, Structural)]
pub struct SearchMatch {
    pub start: GridPoint,
    pub end: GridPoint,
}

impl SearchMatch {
    /// Whether a point lies between the first and the last cell, in reading order.
    pub open spec fn covers(self, point: GridPoint) -> bool {
        self.start.not_after(point) && point.not_after(self.end)
    }

    /// Whether the match has a line in the given range of lines.
    pub open spec fn touches(self, top: int, bottom: int) -> bool {
        self.end.line >= top && self.start.line <= bottom
    }
}

#[derive(Clone, Copy, Debug, PartialEq, Eq, Structural)]
pub enum SearchHighlight {
    Match,
    Current,
}

/// What a frame says about the search.
#[derive(Clone, Debug, PartialEq, Eq)]
pub struct SearchSnapshot {
    pub query: String,
    /// The number of the current match, counted from one; zero where there is none.
    pub current: usize,
    pub total: usize,
    pub visible_matches: Vec<(SearchMatch, SearchHighlight)>,
}

/// What a `SearchSnapshot` holds.
pub struct SearchView {
    pub query: Seq<char>,
    pub current: int,
    pub total: int,
    pub visible_matches: Seq<(SearchMatch, SearchHighlight)>,
}

impl View for SearchSnapshot {
    type V = SearchView;

    open spec fn view(&self) -> SearchView {
        SearchView {
            query: self.query@,
            current: self.current as int,
            total: self.total as int,
            visible_matches: self.visible_matches@,
        }
    }
}

/// No search at all.
pub open spec fn no_search() -> SearchView {
    SearchView { query: Seq::empty(), current: 0, total: 0, visible_matches: Seq::empty() }
}

/// The highlight of the first match that covers the point.
pub open spec fn first_highlight(
    matches: Seq<(SearchMatch, SearchHighlight)>,
    point: GridPoint,
) -> Option<SearchHighlight>
    decreases matches.len(),
{
    if matches.len() == 0 {
        None
    } else if matches.first().0.covers(point) {
        Some(matches.first().1)
    } else {
        first_highlight(matches.drop_first(), point)
    }
}

impl SearchSnapshot {
    pub fn empty() -> (snapshot: SearchSnapshot)
        ensures
            snapshot@ == no_search(),
    {
        SearchSnapshot {
            query: String::new(),
            current: 0,
            total: 0,
            visible_matches: Vec::new(),
        }
    }

    /// How a cell is highlighted.
    pub fn highlight_at(&self, point: GridPoint) -> (highlight: Option<SearchHighlight>)
        ensures
            highlight == first_highlight(self@.visible_matches, point),
    {
        let mut index: usize = 0;
        let ghost all = self.visible_matches@;
        assert(all.skip(0) == all);
        while index < self.visible_matches.len()
            invariant
                index <= all.len(),
                all == self.visible_matches@,
                first_highlight(all, point) == first_highlight(all.skip(index as int), point),
            decreases all.len() - index,
        {
            let (range, highlight) = self.visible_matches[index];
            assert(all.skip(index as int).first() == all[index as int]);
            assert(all.skip(index as int).drop_first() == all.skip(index + 1));
            if range.start.is_not_after(point) && point.is_not_after(range.end) {
                return Some(highlight);
            }
            index += 1;
        }
        None
    }
}

/// The part of a terminal's state that search looks at.
#[derive(Clone, Copy, Debug, PartialEq, Eq, Structural)]
pub struct Viewport {
    /// How many lines the view is scrolled back.
    pub display_offset: usize,
    pub screen_lines: usize,
    /// The lines of the screen and of the history.
    pub total_lines: usize,
}

impl Viewport {
    /// The lines fit into the numbers that the grid counts lines with.
    pub open spec fn well_formed(self) -> bool {
        self.screen_lines <= i32::MAX
    }

    /// The scroll offset as the grid counts it.
    pub open spec fn offset(self) -> int {
        if self.display_offset > i32::MAX {
            i32::MAX as int
        } else {
            self.display_offset as int
        }
    }

    /// The first line that is visible.
    pub open spec fn top(self) -> int {
        -self.offset()
    }

    /// The last line that is visible.
    pub open spec fn bottom(self) -> int {
        self.top() + (if self.screen_lines == 0 {
            0
        } else {
            self.screen_lines - 1
        })
    }

    /// How many lines of history there are.
    pub open spec fn history(self) -> int {
        if self.total_lines < self.screen_lines {
            0
        } else {
            self.total_lines - self.screen_lines
        }
    }

    fn visible_range(self) -> (range: (i64, i64))
        requires
            self.well_formed(),
        ensures
            range.0 == self.top(),
            range.1 == self.bottom(),
            -(i32::MAX as int) <= range.0 <= 0,
    {
        let offset: i64 = if self.display_offset > i32::MAX as usize {
            i32::MAX as i64
        } else {
            self.display_offset as i64
        };
        let rest: i64 = if self.screen_lines == 0 {
            0
        } else {
            self.screen_lines as i64 - 1
        };
        (-offset, rest - offset)
    }
}

/// The results of the search in one terminal.
pub struct SearchState {
    query: String,
    matches: Vec<SearchMatch>,
    current: Option<usize>,
    last_refresh: u64,
}

/// What a `SearchState` holds.
pub struct SearchResults {
    pub query: Seq<char>,
    pub matches: Seq<SearchMatch>,
    /// The index of the match that navigation stands on.
    pub current: Option<int>,
    /// When the results were last brought up to date, in milliseconds.
    pub last_refresh: int,
}

impl View for SearchState {
    type V = SearchResults;

    closed spec fn view(&self) -> SearchResults {
        SearchResults {
            query: self.query@,
            matches: self.matches@,
            current: match self.current {
                Some(index) => Some(index as int),
                None => None,
            },
            last_refresh: self.last_refresh as int,
        }
    }
}

impl SearchResults {
    /// Navigation stands on one of the matches, and on none only where there is none.
    pub open spec fn well_formed(self) -> bool {
        match self.current {
            Some(index) => 0 <= index < self.matches.len(),
            None => self.matches.len() == 0,
        }
    }
}

/// The last match for which `wanted` holds, searched from the end.
pub open spec fn last_where(
    matches: Seq<SearchMatch>,
    wanted: spec_fn(SearchMatch) -> bool,
) -> Option<int>
    decreases matches.len(),
{
    if matches.len() == 0 {
        None
    } else if wanted(matches.last()) {
        Some(matches.len() - 1)
    } else {
        last_where(matches.drop_last(), wanted)
    }
}

/// The first match for which `wanted` holds.
pub open spec fn first_where(
    matches: Seq<SearchMatch>,
    wanted: spec_fn(SearchMatch) -> bool,
) -> Option<int>
    decreases matches.len(),
{
    if matches.len() == 0 {
        None
    } else {
        match first_where(matches.drop_last(), wanted) {
            Some(index) => Some(index),
            None => if wanted(matches.last()) {
                Some(matches.len() - 1)
            } else {
                None
            },
        }
    }
}

/// The match that a new search starts on: the last one that is visible, else
/// the last one above the view, else the first one below it.
pub open spec fn nearest_match(matches: Seq<SearchMatch>, view: Viewport) -> Option<int> {
    let visible = last_where(matches, |found: SearchMatch| found.touches(view.top(), view.bottom()));
    let above = last_where(matches, |found: SearchMatch| found.end.line < view.top());
    let below = first_where(matches, |found: SearchMatch| found.start.line > view.bottom());
    if visible is Some {
        visible
    } else if above is Some {
        above
    } else {
        below
    }
}

/// The match that navigation moves to.
pub open spec fn stepped(current: Option<int>, total: int, previous: bool) -> Option<int> {
    if total == 0 {
        None
    } else if previous {
        match current {
            Some(index) => if index == 0 {
                Some(total - 1)
            } else {
                Some(index - 1)
            },
            None => Some(total - 1),
        }
    } else {
        match current {
            Some(index) => if index + 1 == total {
                Some(0)
            } else {
                Some(index + 1)
            },
            None => Some(0),
        }
    }
}

/// How far the view has to scroll to show a match: not at all where one of its
/// lines is visible, else so far that its first line comes to the middle, as
/// far as there is history.
pub open spec fn reveal_delta(found: SearchMatch, view: Viewport) -> Option<int> {
    if found.touches(view.top(), view.bottom()) {
        None
    } else {
        let center = (if view.screen_lines == 0 {
            0
        } else {
            view.screen_lines - 1
        }) / 2;
        let wanted = if center - found.start.line < 0 {
            0
        } else {
            center - found.start.line
        };
        let target = if wanted > view.history() {
            view.history()
        } else {
            wanted
        };
        Some(target - view.offset())
    }
}

/// The results after a scan of the terminal has found `found`.
pub open spec fn rebuilt(
    query: Seq<char>,
    found: Seq<SearchMatch>,
    view: Viewport,
    preferred: Option<int>,
    now: int,
) -> SearchResults {
    if query.len() == 0 || found.len() == 0 {
        SearchResults { query, matches: Seq::empty(), current: None, last_refresh: now }
    } else {
        let current = match preferred {
            Some(index) => if index < found.len() {
                index
            } else {
                found.len() - 1
            },
            None => match nearest_match(found, view) {
                Some(index) => index,
                None => 0,
            },
        };
        SearchResults { query, matches: found, current: Some(current), last_refresh: now }
    }
}

/// The scroll that shows the current match.
pub open spec fn reveal_current(results: SearchResults, view: Viewport) -> Option<int> {
    match results.current {
        Some(index) => reveal_delta(results.matches[index], view),
        None => None,
    }
}

/// What the frame shows: the matches with a line in view, the current one marked.
pub open spec fn visible_matches(
    matches: Seq<SearchMatch>,
    current: Option<int>,
    view: Viewport,
) -> Seq<(SearchMatch, SearchHighlight)>
    decreases matches.len(),
{
    if matches.len() == 0 {
        Seq::empty()
    } else {
        let before = visible_matches(matches.drop_last(), current, view);
        let last = matches.last();
        if last.touches(view.top(), view.bottom()) {
            before.push(
                (
                    last,
                    if current == Some(matches.len() - 1) {
                        SearchHighlight::Current
                    } else {
                        SearchHighlight::Match
                    },
                ),
            )
        } else {
            before
        }
    }
}

impl SearchState {
    /// No query, no results.
    pub fn new(now: u64) -> (state: SearchState)
        ensures
            state@ == (SearchResults {
                query: Seq::empty(),
                matches: Seq::empty(),
                current: None,
                last_refresh: now as int,
            }),
            state@.well_formed(),
    {
        SearchState {
            query: String::new(),
            matches: Vec::new(),
            current: None,
            last_refresh: now,
        }
    }

    pub fn query(&self) -> (query: &str)
        ensures
            query@ == self@.query,
    {
        self.query.as_str()
    }

    /// Takes over a new query with what the scan for it has found; gives the
    /// scroll that shows the match the search starts on.
    pub fn set_query(
        &mut self,
        query: String,
        found: Vec<SearchMatch>,
        view: Viewport,
        now: u64,
    ) -> (scroll: Option<i32>)
        requires
            view.well_formed(),
        ensures
            final(self)@ == rebuilt(query@, found@, view, None, now as int),
            scroll == clamped_scroll(reveal_current(final(self)@, view)),
            final(self)@.well_formed(),
    {
        self.query = query;
        self.rebuild(found, None, view, now);
        self.scroll_current_into_view(view)
    }

    /// Moves to the next match, or to the one before; the ends are joined.
    pub fn step(&mut self, previous: bool, view: Viewport) -> (scroll: Option<i32>)
        requires
            old(self)@.well_formed(),
            view.well_formed(),
        ensures
            final(self)@ == (SearchResults {
                current: stepped(old(self)@.current, old(self)@.matches.len() as int, previous),
                ..old(self)@
            }),
            scroll == clamped_scroll(reveal_current(final(self)@, view)),
            final(self)@.well_formed(),
    {
        if self.matches.len() == 0 {
            self.current = None;
            return None;
        }
        let last: usize = self.matches.len() - 1;
        let next: usize = match self.current {
            Some(index) => if previous {
                if index == 0 {
                    last
                } else {
                    index - 1
                }
            } else if index == last {
                0
            } else {
                index + 1
            },
            None => if previous {
                last
            } else {
                0
            },
        };
        self.current = Some(next);
        self.scroll_current_into_view(view)
    }

    /// Whether the results are to be brought up to date: there is a query, and
    /// the last refresh is long enough ago.
    pub fn is_refresh_due(&self, now: u64) -> (due: bool)
        ensures
            due == (self@.query.len() > 0 && now - self@.last_refresh >= LIVE_REFRESH_INTERVAL),
            due == (self@.query.len() > 0 && now - self@.last_refresh >= 250),
    {
        !text::is_empty_text(self.query.as_str()) && now >= self.last_refresh && now
            - self.last_refresh >= LIVE_REFRESH_INTERVAL
    }

    /// Takes over what a new scan has found where a refresh is due; tells
    /// whether the results changed.
    pub fn refresh_if_due(&mut self, found: Vec<SearchMatch>, view: Viewport, now: u64) -> (changed:
        bool)
        requires
            old(self)@.well_formed(),
            view.well_formed(),
        ensures
            old(self)@.query.len() == 0 || now - old(self)@.last_refresh < LIVE_REFRESH_INTERVAL
                ==> *final(self) == *old(self) && !changed,
            !(old(self)@.query.len() == 0 || now - old(self)@.last_refresh < LIVE_REFRESH_INTERVAL)
                ==> final(self)@ == rebuilt(
                old(self)@.query,
                found@,
                view,
                old(self)@.current,
                now as int,
            ) && changed == (final(self)@.matches != old(self)@.matches || final(self)@.current
                != old(self)@.current),
            final(self)@.well_formed(),
    {
        if !self.is_refresh_due(now) {
            return false;
        }
        let same = same_matches(&self.matches, &found);
        let previous = self.current;
        self.rebuild(found, previous, view, now);
        if self.matches.len() == 0 {
            proof {
                if previous is None {
                    assert(old(self)@.matches =~= self@.matches);
                }
            }
            return previous.is_some();
        }
        let moved = match (previous, self.current) {
            (Some(before), Some(after)) => before != after,
            (None, None) => false,
            _ => true,
        };
        !same || moved
    }

    /// What the next frame says about the search.
    pub fn snapshot(&self, view: Viewport) -> (snapshot: SearchSnapshot)
        requires
            self@.well_formed(),
            view.well_formed(),
        ensures
            snapshot@ == (SearchView {
                query: self@.query,
                current: match self@.current {
                    Some(index) => index + 1,
                    None => 0,
                },
                total: self@.matches.len() as int,
                visible_matches: visible_matches(self@.matches, self@.current, view),
            }),
    {
        let (top, bottom) = view.visible_range();
        let mut shown: Vec<(SearchMatch, SearchHighlight)> = Vec::new();
        let mut index: usize = 0;
        let ghost all = self.matches@;
        while index < self.matches.len()
            invariant
                index <= self.matches@.len(),
                all == self.matches@,
                top == view.top(),
                bottom == view.bottom(),
                shown@ == visible_matches(all.take(index as int), self@.current, view),
            decreases self.matches.len() - index,
        {
            let range = self.matches[index];
            proof {
                assert(all.take(index + 1).drop_last() == all.take(index as int));
                assert(all.take(index + 1).last() == range);
            }
            if range.end.line as i64 >= top && range.start.line as i64 <= bottom {
                let highlight = match self.current {
                    Some(current) => if current == index {
                        SearchHighlight::Current
                    } else {
                        SearchHighlight::Match
                    },
                    None => SearchHighlight::Match,
                };
                shown.push((range, highlight));
            }
            index += 1;
        }
        assert(all.take(index as int) == all);
        SearchSnapshot {
            query: self.query.clone(),
            current: match self.current {
                Some(index) => index + 1,
                None => 0,
            },
            total: self.matches.len(),
            visible_matches: shown,
        }
    }

    fn rebuild(
        &mut self,
        found: Vec<SearchMatch>,
        preferred: Option<usize>,
        view: Viewport,
        now: u64,
    )
        requires
            view.well_formed(),
        ensures
            final(self)@ == rebuilt(
                old(self)@.query,
                found@,
                view,
                match preferred {
                    Some(index) => Some(index as int),
                    None => None,
                },
                now as int,
            ),
            final(self)@.well_formed(),
            final(self).query == old(self).query,
    {
        self.last_refresh = now;
        self.matches = Vec::new();
        self.current = None;
        if text::is_empty_text(self.query.as_str()) || found.len() == 0 {
            return;
        }
        self.matches = found;
        let current: usize = match preferred {
            Some(index) => if index < self.matches.len() {
                index
            } else {
                self.matches.len() - 1
            },
            None => match self.nearest_visible_match(view) {
                Some(index) => index,
                None => 0,
            },
        };
        self.current = Some(current);
    }

    fn nearest_visible_match(&self, view: Viewport) -> (nearest: Option<usize>)
        requires
            view.well_formed(),
        ensures
            match nearest {
                Some(index) => nearest_match(self.matches@, view) == Some(index as int) && index
                    < self.matches@.len(),
                None => nearest_match(self.matches@, view) is None,
            },
    {
        let (top, bottom) = view.visible_range();
        let ghost all = self.matches@;
        let ghost visible = |found: SearchMatch| found.touches(view.top(), view.bottom());
        let ghost above = |found: SearchMatch| found.end.line < view.top();
        let ghost below = |found: SearchMatch| found.start.line > view.bottom();

        let mut index: usize = self.matches.len();
        assert(all.take(index as int) == all);
        while index > 0
            invariant
                index <= self.matches@.len(),
                all == self.matches@,
                top == view.top(),
                bottom == view.bottom(),
                visible == |found: SearchMatch| found.touches(view.top(), view.bottom()),
                last_where(all, visible) == last_where(all.take(index as int), visible),
            decreases index,
        {
            let range = self.matches[index - 1];
            assert(all.take(index as int).last() == range);
            assert(all.take(index as int).drop_last() == all.take(index - 1));
            if range.end.line as i64 >= top && range.start.line as i64 <= bottom {
                return Some(index - 1);
            }
            index -= 1;
        }
        assert(last_where(all, visible) is None);

        index = self.matches.len();
        assert(all.take(index as int) == all);
        while index > 0
            invariant
                index <= self.matches@.len(),
                all == self.matches@,
                top == view.top(),
                above == |found: SearchMatch| found.end.line < view.top(),
                visible == |found: SearchMatch| found.touches(view.top(), view.bottom()),
                last_where(all, visible) is None,
                last_where(all, above) == last_where(all.take(index as int), above),
            decreases index,
        {
            let range = self.matches[index - 1];
            assert(all.take(index as int).last() == range);
            assert(all.take(index as int).drop_last() == all.take(index - 1));
            if (range.end.line as i64) < top {
                return Some(index - 1);
            }
            index -= 1;
        }
        assert(last_where(all, above) is None);

        index = 0;
        while index < self.matches.len()
            invariant
                index <= self.matches@.len(),
                all == self.matches@,
                bottom == view.bottom(),
                above == |found: SearchMatch| found.end.line < view.top(),
                visible == |found: SearchMatch| found.touches(view.top(), view.bottom()),
                below == |found: SearchMatch| found.start.line > view.bottom(),
                last_where(all, visible) is None,
                last_where(all, above) is None,
                first_where(all.take(index as int), below) is None,
            decreases self.matches.len() - index,
        {
            let range = self.matches[index];
            assert(all.take(index + 1).last() == range);
            assert(all.take(index + 1).drop_last() == all.take(index as int));
            if range.start.line as i64 > bottom {
                proof {
                    lemma_first_where_extends(all, below, index + 1);
                }
                return Some(index);
            }
            index += 1;
        }
        assert(all.take(index as int) == all);
        None
    }

    fn scroll_current_into_view(&self, view: Viewport) -> (scroll: Option<i32>)
        requires
            self@.well_formed(),
            view.well_formed(),
        ensures
            scroll == clamped_scroll(reveal_current(self@, view)),
    {
        let range = match self.current {
            Some(index) => self.matches[index],
            None => {
                return None;
            },
        };
        let (top, bottom) = view.visible_range();
        if range.end.line as i64 >= top && range.start.line as i64 <= bottom {
            return None;
        }
        let rest: usize = if view.screen_lines == 0 {
            0
        } else {
            view.screen_lines - 1
        };
        let center: i64 = (rest / 2) as i64;
        let wanted: i64 = center - range.start.line as i64;
        let wanted: u64 = if wanted < 0 {
            0
        } else {
            wanted as u64
        };
        let history: usize = if view.total_lines < view.screen_lines {
            0
        } else {
            view.total_lines - view.screen_lines
        };
        let target: i64 = if wanted > history as u64 {
            history as i64
        } else {
            wanted as i64
        };
        let delta: i64 = target + top;
        Some(
            if delta > i32::MAX as i64 {
                i32::MAX
            } else {
                delta as i32
            },
        )
    }
}

/// A scroll by a number of lines, kept within the numbers that count lines.
pub open spec fn clamped_scroll(delta: Option<int>) -> Option<i32> {
    match delta {
        Some(lines) => Some(
            if lines > i32::MAX {
                i32::MAX
            } else if lines < i32::MIN {
                i32::MIN
            } else {
                lines as i32
            },
        ),
        None => None,
    }
}

proof fn lemma_first_where_extends(
    matches: Seq<SearchMatch>,
    wanted: spec_fn(SearchMatch) -> bool,
    length: int,
)
    requires
        0 <= length <= matches.len(),
        first_where(matches.take(length), wanted) is Some,
    ensures
        first_where(matches, wanted) == first_where(matches.take(length), wanted),
    decreases matches.len(),
{
    if length == matches.len() {
        assert(matches.take(length) == matches);
    } else {
        assert(matches.drop_last().take(length) == matches.take(length));
        lemma_first_where_extends(matches.drop_last(), wanted, length);
    }
}

fn same_matches(left: &Vec<SearchMatch>, right: &Vec<SearchMatch>) -> (same: bool)
    ensures
        same == (left@ == right@),
{
    if left.len() != right.len() {
        return false;
    }
    let mut index: usize = 0;
    while index < left.len()
        invariant
            index <= left@.len(),
            left@.len() == right@.len(),
            forall|i: int| 0 <= i < index ==> left@[i] == right@[i],
        decreases left.len() - index,
    {
        if left[index] != right[index] {
            assert(left@[index as int] != right@[index as int]);
            return false;
        }
        index += 1;
    }
    assert(left@ == right@);
    true
}

/// The characters that mean something in a regular expression.
pub open spec fn regex_syntax(character: char) -> bool {
    character == '\\' || character == '.' || character == '+' || character == '*' || character
        == '?' || character == '(' || character == ')' || character == '|' || character == '['
        || character == ']' || character == '{' || character == '}' || character == '^'
        || character == '$'
}

/// The text with a backslash before each character of regular expression syntax.
pub open spec fn escaped(query: Seq<char>) -> Seq<char>
    decreases query.len(),
{
    if query.len() == 0 {
        query
    } else {
        let before = escaped(query.drop_last());
        if regex_syntax(query.last()) {
            before.push('\\').push(query.last())
        } else {
            before.push(query.last())
        }
    }
}

/// Turns plain text into a regular expression that matches the text itself.
pub fn escape_regex_literal(query: &str) -> (pattern: String)
    ensures
        pattern@ == escaped(query@),
{
    let list = text::characters(query);
    let mut pattern = String::new();
    let mut index: usize = 0;
    while index < list.len()
        invariant
            index <= list@.len(),
            pattern@ == escaped(list@.take(index as int)),
        decreases list.len() - index,
    {
        let character = list[index];
        assert(list@.take(index + 1).drop_last() == list@.take(index as int));
        assert(list@.take(index + 1).last() == character);
        if character == '\\' || character == '.' || character == '+' || character == '*'
            || character == '?' || character == '(' || character == ')' || character == '|'
            || character == '[' || character == ']' || character == '{' || character == '}'
            || character == '^' || character == '$' {
            pattern.push('\\');
        }
        pattern.push(character);
        index += 1;
    }
    assert(list@.take(index as int) == list@);
    pattern
}

/// Undoes an escape: a backslash is dropped and the character behind it taken
/// as it is.
pub open spec fn unescaped(pattern: Seq<char>) -> Seq<char>
    decreases pattern.len(),
{
    if pattern.len() == 0 {
        pattern
    } else if pattern.first() == '\\' && pattern.len() > 1 {
        seq![pattern[1]] + unescaped(pattern.skip(2))
    } else {
        seq![pattern.first()] + unescaped(pattern.skip(1))
    }
}

proof fn lemma_unescaped_suffix(query: Seq<char>, rest: Seq<char>)
    ensures
        unescaped(escaped(query) + rest) == query + unescaped(rest),
    decreases query.len(),
{
    if query.len() == 0 {
        assert(escaped(query) + rest == rest);
        assert(query + unescaped(rest) == unescaped(rest));
    } else {
        let shorter = query.drop_last();
        let last = query.last();
        let tail = if regex_syntax(last) {
            seq!['\\', last]
        } else {
            seq![last]
        };
        assert(escaped(query) == escaped(shorter) + tail);
        assert(escaped(query) + rest == escaped(shorter) + (tail + rest));
        lemma_unescaped_suffix(shorter, tail + rest);
        if regex_syntax(last) {
            assert((tail + rest).skip(2) == rest);
        } else {
            assert((tail + rest).skip(1) == rest);
        }
        assert(unescaped(tail + rest) == seq![last] + unescaped(rest));
        assert(shorter + (seq![last] + unescaped(rest)) == query + unescaped(rest));
    }
}

/// An escaped query stands for the query itself: taking the escapes back gives
/// it again, so two queries never share a pattern.
pub proof fn escaping_loses_nothing(query: Seq<char>)
    ensures
        unescaped(escaped(query)) == query,
{
    lemma_unescaped_suffix(query, Seq::empty());
    assert(escaped(query) + Seq::<char>::empty() == escaped(query));
    assert(unescaped(Seq::<char>::empty()) == Seq::<char>::empty());
    assert(query + Seq::<char>::empty() == query);
}

/// The pattern that finds a plain text, whatever the case of its letters.
pub open spec fn query_pattern(query: Seq<char>) -> Seq<char> {
    "(?i:"@ + escaped(query) + ")"@
}

#[verifier::external_type_specification]
#[verifier::external_body]
pub struct ExRegexSearch(RegexSearch);

/// What `RegexSearch::new` makes of a pattern; none where it reports an error.
pub uninterp spec fn compiled_search(pattern: Seq<char>) -> Option<RegexSearch>;

/// `alacritty_terminal::term::search::RegexSearch::new` compiles a pattern into
/// the automata that the terminal searches with; it gives none where it reports
/// an error. What the automata match is not stated.
#[verifier::external_body]
fn compile_pattern(pattern: &str) -> (search: Option<RegexSearch>)
    ensures
        search == compiled_search(pattern@),
{
    RegexSearch::new(pattern).ok()
}

/// The automata to scan the terminal with; none for an empty query, and none
/// where the pattern is too large to compile.
pub fn prepare_search(query: &str) -> (search: Option<RegexSearch>)
    ensures
        search == (if query@.len() == 0 {
            None
        } else {
            compiled_search(query_pattern(query@))
        }),
{
    if text::is_empty_text(query) {
        return None;
    }
    let literal = escape_regex_literal(query);
    let pattern = text::concat3("(?i:", literal.as_str(), ")");
    compile_pattern(pattern.as_str())
}

/// Stepping forward and then back, or back and then forward, returns to the
/// match where navigation stood.
pub proof fn steps_undo_each_other(index: int, total: int, previous: bool)
    requires
        0 <= index < total,
    ensures
        stepped(stepped(Some(index), total, previous), total, !previous) == Some(index),
{
}

/// As many forward steps as there are matches visit every match once: the
/// match after `count` steps is `count` further on, modulo the total.
pub proof fn steps_cycle_through_all(index: int, total: int, count: nat)
    requires
        0 <= index < total,
    ensures
        stepped_times(index, total, count) == (index + count) % total,
    decreases count,
{
    if count == 0 {
        assert(index % total == index) by (nonlinear_arith)
            requires
                0 <= index < total,
        ;
    } else {
        steps_cycle_through_all(index, total, (count - 1) as nat);
        let sum = index + count - 1;
        vstd::arithmetic::div_mod::lemma_fundamental_div_mod(sum, total);
        let quotient = sum / total;
        let rest = sum % total;
        if rest + 1 == total {
            assert(index + count == total * (quotient + 1)) by (nonlinear_arith)
                requires
                    index + count - 1 == total * quotient + rest,
                    rest + 1 == total,
            ;
            vstd::arithmetic::div_mod::lemma_fundamental_div_mod_converse(
                index + count,
                total,
                quotient + 1,
                0,
            );
        } else {
            vstd::arithmetic::div_mod::lemma_fundamental_div_mod_converse(
                index + count,
                total,
                quotient,
                rest + 1,
            );
        }
    }
}

/// The match after a number of forward steps.
pub open spec fn stepped_times(index: int, total: int, count: nat) -> int
    decreases count,
{
    if count == 0 {
        index
    } else {
        match stepped(Some(stepped_times(index, total, (count - 1) as nat)), total, false) {
            Some(next) => next,
            None => 0,
        }
    }
}

/// Where the scroll to a match is within the numbers that count lines, the view
/// it leads to stays within the history.
pub proof fn reveals_stay_in_the_history(found: SearchMatch, view: Viewport)
    requires
        view.well_formed(),
        reveal_delta(found, view) is Some,
    ensures
        0 <= view.offset() + reveal_delta(found, view)->0 <= view.history(),
{
}

/// The view after it has scrolled.
pub open spec fn scrolled(view: Viewport, delta: Option<i32>) -> Viewport {
    match delta {
        Some(lines) => Viewport { display_offset: (view.display_offset + lines) as usize, ..view },
        None => view,
    }
}

/// A match is shown once the view has scrolled to it: a line of it is visible,
/// and where the view had to scroll, its first line is. Asked again, the view
/// stays where it is.
pub proof fn reveals_show_the_match(found: SearchMatch, view: Viewport)
    requires
        0 < view.screen_lines <= view.total_lines <= i32::MAX,
        view.display_offset <= i32::MAX,
        found.start.not_after(found.end),
        -view.history() <= found.start.line < view.screen_lines,
    ensures
        ({
            let delta = clamped_scroll(reveal_delta(found, view));
            let after = scrolled(view, delta);
            &&& found.touches(after.top(), after.bottom())
            &&& delta is Some ==> after.top() <= found.start.line <= after.bottom()
            &&& reveal_delta(found, after) is None
        }),
{
}

proof fn lemma_last_where_holds(
    matches: Seq<SearchMatch>,
    wanted: spec_fn(SearchMatch) -> bool,
    place: int,
)
    requires
        0 <= place < matches.len(),
        wanted(matches[place]),
    ensures
        last_where(matches, wanted) matches Some(index) && place <= index < matches.len()
            && wanted(matches[index]),
    decreases matches.len(),
{
    if !wanted(matches.last()) {
        lemma_last_where_holds(matches.drop_last(), wanted, place);
        let index = last_where(matches.drop_last(), wanted)->0;
        assert(matches.drop_last()[index] == matches[index]);
    }
}

/// Where a match is visible already, a new query starts on a visible one and the
/// view does not scroll.
pub proof fn visible_matches_are_preferred(
    query: Seq<char>,
    found: Seq<SearchMatch>,
    view: Viewport,
    now: int,
    place: int,
)
    requires
        query.len() > 0,
        0 <= place < found.len(),
        found[place].touches(view.top(), view.bottom()),
    ensures
        ({
            let results = rebuilt(query, found, view, None, now);
            &&& results.current matches Some(index) && place <= index < found.len()
                && found[index].touches(view.top(), view.bottom())
            &&& reveal_current(results, view) is None
        }),
{
    lemma_last_where_holds(
        found,
        |candidate: SearchMatch| candidate.touches(view.top(), view.bottom()),
        place,
    );
}

proof fn lemma_last_where_is_last(
    matches: Seq<SearchMatch>,
    wanted: spec_fn(SearchMatch) -> bool,
)
    ensures
        match last_where(matches, wanted) {
            Some(index) => 0 <= index < matches.len() && wanted(matches[index]) && forall|j: int|
                index < j < matches.len() ==> !wanted(#[trigger] matches[j]),
            None => forall|j: int| 0 <= j < matches.len() ==> !wanted(#[trigger] matches[j]),
        },
    decreases matches.len(),
{
    if matches.len() > 0 && !wanted(matches.last()) {
        let shorter = matches.drop_last();
        lemma_last_where_is_last(shorter, wanted);
        assert forall|j: int| 0 <= j < shorter.len() implies shorter[j] == #[trigger] matches[j] by {}
    }
}

proof fn lemma_first_where_is_first(
    matches: Seq<SearchMatch>,
    wanted: spec_fn(SearchMatch) -> bool,
)
    ensures
        match first_where(matches, wanted) {
            Some(index) => 0 <= index < matches.len() && wanted(matches[index]) && forall|j: int|
                0 <= j < index ==> !wanted(#[trigger] matches[j]),
            None => forall|j: int| 0 <= j < matches.len() ==> !wanted(#[trigger] matches[j]),
        },
    decreases matches.len(),
{
    if matches.len() > 0 {
        let shorter = matches.drop_last();
        lemma_first_where_is_first(shorter, wanted);
        assert forall|j: int| 0 <= j < shorter.len() implies shorter[j] == #[trigger] matches[j] by {}
    }
}

/// A new query starts on the last match with a line on the screen. Where there is
/// none, it starts on the last match that ends above the screen: no match behind
/// it does. Where there is none either, every match is below the screen, and it
/// starts on the first.
pub proof fn searches_start_next_to_the_view(
    query: Seq<char>,
    found: Seq<SearchMatch>,
    view: Viewport,
    now: int,
    top: int,
    bottom: int,
)
    requires
        query.len() > 0,
        found.len() > 0,
        view.display_offset <= i32::MAX,
        view.screen_lines > 0,
        top == -(view.display_offset as int),
        bottom == top + view.screen_lines - 1,
    ensures
        rebuilt(query, found, view, None, now).matches == found,
        rebuilt(query, found, view, None, now).query == query,
        rebuilt(query, found, view, None, now).last_refresh == now,
        rebuilt(query, found, view, None, now).current matches Some(start) && 0 <= start
            < found.len() && if exists|k: int|
            0 <= k < found.len() && (#[trigger] found[k]).end.line >= top && found[k].start.line
                <= bottom {
            found[start].end.line >= top && found[start].start.line <= bottom && forall|j: int|
                start < j < found.len() ==> (#[trigger] found[j]).end.line < top
                    || found[j].start.line > bottom
        } else if exists|k: int| 0 <= k < found.len() && (#[trigger] found[k]).end.line < top {
            found[start].end.line < top && forall|j: int|
                start < j < found.len() ==> (#[trigger] found[j]).end.line >= top
        } else {
            start == 0
        },
{
    let visible = |candidate: SearchMatch| candidate.touches(view.top(), view.bottom());
    let above = |candidate: SearchMatch| candidate.end.line < view.top();
    let below = |candidate: SearchMatch| candidate.start.line > view.bottom();
    lemma_last_where_is_last(found, visible);
    lemma_last_where_is_last(found, above);
    lemma_first_where_is_first(found, below);
    assert(view.top() == top && view.bottom() == bottom);
    if last_where(found, visible) is None && last_where(found, above) is None {
        assert(!visible(found[0]) && !above(found[0]));
        assert(below(found[0]));
    }
    assert forall|j: int| 0 <= j < found.len() implies visible(#[trigger] found[j]) == (
    found[j].end.line >= top && found[j].start.line <= bottom) && above(found[j]) == (
    found[j].end.line < top) by {}
}

/// Where the matches come in reading order and none is on the screen, a new query
/// starts on a match that no other match above the screen is nearer than.
pub proof fn searches_start_on_the_nearest_match_above(
    query: Seq<char>,
    found: Seq<SearchMatch>,
    view: Viewport,
    now: int,
    other: int,
)
    requires
        query.len() > 0,
        view.display_offset <= i32::MAX,
        view.screen_lines > 0,
        forall|i: int, j: int|
            0 <= i < j < found.len() ==> (#[trigger] found[i]).end.line <= (
            #[trigger] found[j]).end.line,
        forall|k: int|
            0 <= k < found.len() ==> (#[trigger] found[k]).end.line < -(view.display_offset as int)
                || found[k].start.line > view.screen_lines - 1 - view.display_offset,
        0 <= other < found.len(),
        found[other].end.line < -(view.display_offset as int),
    ensures
        rebuilt(query, found, view, None, now).current matches Some(start) && other <= start
            < found.len() && found[other].end.line <= found[start].end.line < -(
        view.display_offset as int),
{
    searches_start_next_to_the_view(
        query,
        found,
        view,
        now,
        -(view.display_offset as int),
        view.screen_lines - 1 - view.display_offset,
    );
    let start = rebuilt(query, found, view, None, now).current->0;
    if start < other {
        assert(found[other].end.line >= -(view.display_offset as int));
    }
}

/// A search that is brought up to date keeps its place: it stays on the match with
/// the same number, or on the last one where there are fewer now. Without a query
/// or a match there is nothing to stand on.
pub proof fn refreshes_keep_their_place(
    query: Seq<char>,
    found: Seq<SearchMatch>,
    view: Viewport,
    place: int,
    now: int,
)
    requires
        0 <= place,
    ensures
        ({
            let results = rebuilt(query, found, view, Some(place), now);
            &&& results.query == query
            &&& results.last_refresh == now
            &&& query.len() > 0 && place < found.len() ==> results.current == Some(place)
            &&& query.len() > 0 && 0 < found.len() <= place ==> results.current == Some(
                found.len() - 1,
            )
            &&& query.len() > 0 ==> results.matches == found
            &&& query.len() == 0 || found.len() == 0 ==> results.current is None
                && results.matches.len() == 0
        }),
{
}

/// The view scrolls to a match only where no line of it is on the screen, and then
/// brings its first line to the middle of the screen, or as near to it as the
/// history goes.
pub proof fn reveals_center_the_match(found: SearchMatch, view: Viewport)
    requires
        view.display_offset <= i32::MAX,
        0 < view.screen_lines <= view.total_lines,
    ensures
        match reveal_delta(found, view) {
            None => found.end.line + view.display_offset >= 0 && found.start.line
                + view.display_offset < view.screen_lines,
            Some(delta) => {
                let offset = view.display_offset + delta;
                let center = (view.screen_lines - 1) / 2;
                let oldest = view.total_lines - view.screen_lines;
                &&& found.end.line + view.display_offset < 0 || found.start.line
                    + view.display_offset >= view.screen_lines
                &&& 0 <= offset <= oldest
                &&& found.start.line + offset < center ==> offset == oldest
                &&& found.start.line + offset > center ==> offset == 0
            },
        },
{
}

/// A frame shows exactly the matches with a line on the screen, in their order,
/// and marks the one that navigation stands on.
pub proof fn frames_show_the_matches_in_view(
    matches: Seq<SearchMatch>,
    current: Option<int>,
    view: Viewport,
)
    requires
        view.display_offset <= i32::MAX,
        view.screen_lines > 0,
    ensures
        visible_matches(matches, current, view) == Seq::new(
            matches.len(),
            |i: int|
                (
                    matches[i],
                    if current == Some(i) {
                        SearchHighlight::Current
                    } else {
                        SearchHighlight::Match
                    },
                ),
        ).filter(
            |shown: (SearchMatch, SearchHighlight)|
                shown.0.end.line + view.display_offset >= 0 && shown.0.start.line
                    + view.display_offset < view.screen_lines,
        ),
    decreases matches.len(),
{
    reveal(Seq::filter);
    let marked = Seq::new(
        matches.len(),
        |i: int|
            (
                matches[i],
                if current == Some(i) {
                    SearchHighlight::Current
                } else {
                    SearchHighlight::Match
                },
            ),
    );
    if matches.len() > 0 {
        let shorter = matches.drop_last();
        frames_show_the_matches_in_view(shorter, current, view);
        assert(marked.drop_last() =~= Seq::new(
            shorter.len(),
            |i: int|
                (
                    shorter[i],
                    if current == Some(i) {
                        SearchHighlight::Current
                    } else {
                        SearchHighlight::Match
                    },
                ),
        ));
    }
}

/// A cell is highlighted if and only if a match that is shown holds it: the cell
/// is not before the first cell of the match, nor behind its last one. The first
/// such match decides how.
pub proof fn highlights_are_those_of_matches(
    shown: Seq<(SearchMatch, SearchHighlight)>,
    point: GridPoint,
)
    ensures
        match first_highlight(shown, point) {
            Some(highlight) => exists|i: int|
                0 <= i < shown.len() && (#[trigger] shown[i]).1 == highlight && holds_cell(
                    shown[i].0,
                    point,
                ) && forall|j: int| 0 <= j < i ==> !holds_cell((#[trigger] shown[j]).0, point),
            None => forall|i: int|
                0 <= i < shown.len() ==> !holds_cell((#[trigger] shown[i]).0, point),
        },
    decreases shown.len(),
{
    if shown.len() > 0 {
        if holds_cell(shown[0].0, point) {
            assert(first_highlight(shown, point) == Some(shown[0].1));
        } else {
            let rest = shown.drop_first();
            highlights_are_those_of_matches(rest, point);
            match first_highlight(rest, point) {
                Some(highlight) => {
                    let i = choose|i: int|
                        0 <= i < rest.len() && (#[trigger] rest[i]).1 == highlight && holds_cell(
                            rest[i].0,
                            point,
                        ) && forall|j: int|
                            0 <= j < i ==> !holds_cell((#[trigger] rest[j]).0, point);
                    assert(shown[i + 1] == rest[i]);
                    assert forall|j: int| 0 <= j < i + 1 implies !holds_cell(
                        (#[trigger] shown[j]).0,
                        point,
                    ) by {
                        if j > 0 {
                            assert(rest[j - 1] == shown[j]);
                        }
                    }
                },
                None => {
                    assert forall|j: int| 0 <= j < shown.len() implies !holds_cell(
                        (#[trigger] shown[j]).0,
                        point,
                    ) by {
                        if j > 0 {
                            assert(rest[j - 1] == shown[j]);
                        }
                    }
                },
            }
        }
    }
}

/// Whether a cell lies between the first and the last cell of a match, both
/// included, when lines are read one after the other.
pub open spec fn holds_cell(found: SearchMatch, point: GridPoint) -> bool {
    &&& point.line >= found.start.line
    &&& point.line <= found.end.line
    &&& point.line == found.start.line ==> point.column >= found.start.column
    &&& point.line == found.end.line ==> point.column <= found.end.column
}

proof fn lemma_escapes_join(left: Seq<char>, right: Seq<char>)
    ensures
        escaped(left + right) == escaped(left) + escaped(right),
    decreases right.len(),
{
    if right.len() == 0 {
        assert(left + right =~= left);
        assert(escaped(left) + escaped(right) =~= escaped(left));
    } else {
        lemma_escapes_join(left, right.drop_last());
        assert((left + right).drop_last() =~= left + right.drop_last());
        assert(escaped(left + right) =~= escaped(left) + escaped(right));
    }
}

/// Escaping goes character by character: each character that means something in a
/// regular expression gets a backslash before it, every other one stays alone.
pub proof fn syntax_is_escaped(left: Seq<char>, character: char, right: Seq<char>)
    ensures
        escaped(Seq::empty()) == Seq::<char>::empty(),
        escaped(left.push(character) + right) == escaped(left) + (if seq![
            '\\', '.', '+', '*', '?', '(', ')', '|', '[', ']', '{', '}', '^', '$',
        ].contains(character) {
            seq!['\\', character]
        } else {
            seq![character]
        }) + escaped(right),
{
    let syntax = seq!['\\', '.', '+', '*', '?', '(', ')', '|', '[', ']', '{', '}', '^', '$'];
    lemma_escapes_join(left.push(character), right);
    assert(left.push(character).drop_last() =~= left);
    assert(syntax[0] == '\\' && syntax[1] == '.' && syntax[2] == '+' && syntax[3] == '*'
        && syntax[4] == '?' && syntax[5] == '(' && syntax[6] == ')' && syntax[7] == '|'
        && syntax[8] == '[' && syntax[9] == ']' && syntax[10] == '{' && syntax[11] == '}'
        && syntax[12] == '^' && syntax[13] == '$');
    assert(syntax.contains(character) == regex_syntax(character)) by {
        if syntax.contains(character) {
            let i = choose|i: int| 0 <= i < syntax.len() && syntax[i] == character;
        }
    }
    assert(escaped(left.push(character)) =~= escaped(left) + (if syntax.contains(character) {
        seq!['\\', character]
    } else {
        seq![character]
    }));
}

/// The pattern of a query finds it in upper and in lower case: the query, escaped,
/// stands in a group that ignores case.
pub proof fn patterns_ignore_case(query: Seq<char>)
    ensures
        query_pattern(query) == seq!['(', '?', 'i', ':'] + escaped(query) + seq![')'],
{
    reveal_strlit("(?i:");
    reveal_strlit(")");
    assert("(?i:"@ =~= seq!['(', '?', 'i', ':']);
    assert(")"@ =~= seq![')']);
}

} // verus!
