//! What the launcher's view components decide and compute: the rows they
//! show, the text they highlight, and what a click or a key press asks for.
//! Drawing them is left to the application.

#![allow(non_snake_case)]

use vstd::prelude::*;
use vstd::string::*;

use crate::filter::{FilterState, FilterStateView};
use crate::provider::{modifier_label, ActionModifier, Item};
use crate::tags::{path_leaf, tag_leaf, TagInfo, TagRegistry};
use crate::text::{
    char_upper_first, chars_of, contains_chars, drop_keyed, first_keyed, has_substring,
    lemma_first_keyed, lowercase, position_str, str_key, str_views, string_of_range, to_lowercase,
    upper_first, without_str,
};

verus! {

/// A key of the keyboard, as far as the launcher tells keys apart.
#[derive(Debug, Clone, PartialEq, Eq)]
pub enum LauncherKey {
    ArrowDown,
    ArrowUp,
    Tab,
    Enter,
    Escape,
    Home,
    End,
    PageDown,
    PageUp,
    /// A key that types text, with that text.
    Character(String),
    /// Any other key.
    Other,
}

// ── Decimal numbers ────────────────────────────────────────────

/// The digit character of `d` (0 to 9).
pub open spec fn digit_char(d: int) -> char {
    if d == 0 {
        '0'
    } else if d == 1 {
        '1'
    } else if d == 2 {
        '2'
    } else if d == 3 {
        '3'
    } else if d == 4 {
        '4'
    } else if d == 5 {
        '5'
    } else if d == 6 {
        '6'
    } else if d == 7 {
        '7'
    } else if d == 8 {
        '8'
    } else {
        '9'
    }
}

/// The decimal representation of `n`, without leading zeros.
pub open spec fn decimal(n: nat) -> Seq<char>
    decreases n,
{
    if n < 10 {
        seq![digit_char(n as int)]
    } else {
        decimal(n / 10).push(digit_char((n % 10) as int))
    }
}

fn digit_of(d: u64) -> (r: char)
    requires
        d < 10,
    ensures
        r == digit_char(d as int),
{
    if d == 0 {
        '0'
    } else if d == 1 {
        '1'
    } else if d == 2 {
        '2'
    } else if d == 3 {
        '3'
    } else if d == 4 {
        '4'
    } else if d == 5 {
        '5'
    } else if d == 6 {
        '6'
    } else if d == 7 {
        '7'
    } else if d == 8 {
        '8'
    } else {
        '9'
    }
}

/// Writes `n` in decimal.
pub fn decimal_string(n: u64) -> (r: String)
    ensures
        r@ == decimal(n as nat),
    decreases n,
{
    if n < 10 {
        let mut s = String::new();
        crate::text::push_char(&mut s, digit_of(n));
        assert(s@ =~= seq![digit_char(n as int)]);
        s
    } else {
        let mut s = decimal_string(n / 10);
        crate::text::push_char(&mut s, digit_of(n % 10));
        s
    }
}

// ── Result item text ───────────────────────────────────────────

/// The content of a text segment.
pub struct TextSegmentView {
    pub text: Seq<char>,
    pub highlighted: bool,
}

/// A piece of a label, highlighted where the query matched.
#[derive(Debug, Clone, PartialEq)]
pub struct TextSegment {
    pub text: String,
    pub highlighted: bool,
}

impl View for TextSegment {
    type V = TextSegmentView;

    open spec fn view(&self) -> TextSegmentView {
        TextSegmentView { text: self.text@, highlighted: self.highlighted }
    }
}

/// The views of segments.
pub open spec fn segment_views(v: Seq<TextSegment>) -> Seq<TextSegmentView> {
    v.map_values(|s: TextSegment| s@)
}

/// The segments for the first positions, and where the unhighlighted rest
/// begins. Positions past the end are skipped; text between the previous
/// highlight and a position is emitted plain first.
pub open spec fn highlight_upto(chars: Seq<char>, positions: Seq<u32>) -> (int, Seq<TextSegmentView>)
    decreases positions.len(),
{
    if positions.len() == 0 {
        (0, Seq::empty())
    } else {
        let (last, segs) = highlight_upto(chars, positions.drop_last());
        let pos = positions.last() as int;
        if pos >= chars.len() {
            (last, segs)
        } else {
            let segs2 = if pos > last {
                segs.push(TextSegmentView { text: chars.subrange(last, pos), highlighted: false })
            } else {
                segs
            };
            (pos + 1, segs2.push(TextSegmentView { text: chars.subrange(pos, pos + 1), highlighted: true }))
        }
    }
}

/// The segments of a label: one plain segment when nothing matched,
/// otherwise plain and highlighted pieces, the highlighted ones one
/// character long.
pub open spec fn highlight_spec(text: Seq<char>, positions: Seq<u32>) -> Seq<TextSegmentView> {
    if positions.len() == 0 {
        seq![TextSegmentView { text: text, highlighted: false }]
    } else {
        let (last, segs) = highlight_upto(text, positions);
        if last < text.len() {
            segs.push(TextSegmentView { text: text.subrange(last, text.len() as int), highlighted: false })
        } else {
            segs
        }
    }
}

pub proof fn lemma_highlight_upto_bounds(chars: Seq<char>, positions: Seq<u32>)
    ensures
        0 <= highlight_upto(chars, positions).0 <= chars.len(),
    decreases positions.len(),
{
    if positions.len() > 0 {
        lemma_highlight_upto_bounds(chars, positions.drop_last());
    }
}

/// Splits a label into plain and highlighted segments at the matched
/// character positions.
pub fn highlight_segments(text: &str, positions: &[u32]) -> (r: Vec<TextSegment>)
    ensures
        segment_views(r@) == highlight_spec(text@, positions@),
{
    if positions.len() == 0 {
        let mut v: Vec<TextSegment> = Vec::new();
        v.push(TextSegment { text: text.to_owned(), highlighted: false });
        assert(segment_views(v@) =~= highlight_spec(text@, positions@));
        return v;
    }
    let chars = chars_of(text);
    let mut segments: Vec<TextSegment> = Vec::new();
    let mut last: usize = 0;
    let mut k: usize = 0;
    assert(positions@.take(0) =~= Seq::<u32>::empty());
    while k < positions.len()
        invariant
            chars@ == text@,
            k <= positions@.len(),
            (last as int, segment_views(segments@)) == highlight_upto(text@, positions@.take(k as int)),
        decreases positions@.len() - k,
    {
        proof {
            lemma_highlight_upto_bounds(text@, positions@.take(k as int));
        }
        assert(positions@.take(k + 1).drop_last() =~= positions@.take(k as int));
        let pos = positions[k];
        if (pos as usize) < chars.len() {
            let p = pos as usize;
            if p > last {
                let ghost before = segment_views(segments@);
                segments.push(TextSegment { text: string_of_range(chars.as_slice(), last, p), highlighted: false });
                assert(segment_views(segments@) =~= before.push(
                    TextSegmentView { text: text@.subrange(last as int, p as int), highlighted: false },
                ));
            }
            let ghost before = segment_views(segments@);
            segments.push(TextSegment { text: string_of_range(chars.as_slice(), p, p + 1), highlighted: true });
            assert(segment_views(segments@) =~= before.push(
                TextSegmentView { text: text@.subrange(p as int, p + 1), highlighted: true },
            ));
            last = p + 1;
        }
        k = k + 1;
    }
    assert(positions@.take(k as int) =~= positions@);
    proof {
        lemma_highlight_upto_bounds(text@, positions@);
    }
    if last < chars.len() {
        let ghost before = segment_views(segments@);
        segments.push(TextSegment { text: string_of_range(chars.as_slice(), last, chars.len()), highlighted: false });
        assert(segment_views(segments@) =~= before.push(
            TextSegmentView { text: text@.subrange(last as int, text@.len() as int), highlighted: false },
        ));
    }
    segments
}

/// The concatenated texts of segments.
pub open spec fn joined_text(segs: Seq<TextSegmentView>) -> Seq<char>
    decreases segs.len(),
{
    if segs.len() == 0 {
        Seq::empty()
    } else {
        joined_text(segs.drop_last()) + segs.last().text
    }
}

/// Positions that strictly increase and lie within the text.
pub open spec fn positions_ok(positions: Seq<u32>, len: nat) -> bool {
    &&& forall|i: int, j: int| 0 <= i < j < positions.len() ==> positions[i] < positions[j]
    &&& forall|i: int| 0 <= i < positions.len() ==> positions[i] < len
}

proof fn lemma_highlight_upto_joined(chars: Seq<char>, positions: Seq<u32>)
    requires
        positions_ok(positions, chars.len()),
    ensures
        ({
            let (last, segs) = highlight_upto(chars, positions);
            &&& joined_text(segs) == chars.take(last)
            &&& positions.len() > 0 ==> last == positions.last() + 1
            &&& positions.len() == 0 ==> last == 0
        }),
    decreases positions.len(),
{
    if positions.len() > 0 {
        let p = positions.drop_last();
        assert(positions_ok(p, chars.len()));
        lemma_highlight_upto_joined(chars, p);
        let (last, segs) = highlight_upto(chars, p);
        let pos = positions.last() as int;
        if p.len() > 0 {
            assert(p.last() < positions.last());
        }
        lemma_highlight_upto_bounds(chars, p);
        assert(pos >= last);
        if pos > last {
            let s1 = segs.push(TextSegmentView { text: chars.subrange(last, pos), highlighted: false });
            assert(s1.drop_last() =~= segs);
            assert(joined_text(s1) == joined_text(segs) + chars.subrange(last, pos));
            assert(joined_text(s1) =~= chars.take(pos));
            let s2 = s1.push(TextSegmentView { text: chars.subrange(pos, pos + 1), highlighted: true });
            assert(s2.drop_last() =~= s1);
            assert(joined_text(s2) == joined_text(s1) + chars.subrange(pos, pos + 1));
            assert(joined_text(s2) =~= chars.take(pos + 1));
        } else {
            let s2 = segs.push(TextSegmentView { text: chars.subrange(pos, pos + 1), highlighted: true });
            assert(s2.drop_last() =~= segs);
            assert(joined_text(s2) == joined_text(segs) + chars.subrange(pos, pos + 1));
            assert(joined_text(s2) =~= chars.take(pos + 1));
        }
    } else {
        assert(chars.take(0) =~= Seq::<char>::empty());
    }
}

/// With strictly increasing positions inside the text, the segments put
/// back together give the text.
pub proof fn lemma_highlight_preserves_text(text: Seq<char>, positions: Seq<u32>)
    requires
        positions_ok(positions, text.len()),
    ensures
        joined_text(highlight_spec(text, positions)) == text,
{
    if positions.len() == 0 {
        let s = seq![TextSegmentView { text: text, highlighted: false }];
        assert(s.drop_last() =~= Seq::<TextSegmentView>::empty());
        assert(joined_text(s) == joined_text(s.drop_last()) + text);
        assert(joined_text(s) =~= text);
    } else {
        lemma_highlight_upto_bounds(text, positions);
        lemma_highlight_upto_joined(text, positions);
        let (last, segs) = highlight_upto(text, positions);
        if last < text.len() {
            let s = segs.push(TextSegmentView { text: text.subrange(last, text.len() as int), highlighted: false });
            assert(s.drop_last() =~= segs);
            assert(joined_text(s) == joined_text(segs) + text.subrange(last, text.len() as int));
            assert(joined_text(s) =~= text);
        } else {
            assert(text.take(last) =~= text);
        }
    }
}

/// The content of a display item.
pub struct DisplayItemView {
    pub label: Seq<char>,
    pub sub: Seq<char>,
    pub provider: Seq<char>,
    pub icon: Seq<char>,
    pub icon_path: Seq<char>,
    pub tags: Seq<Seq<char>>,
    pub is_selected: bool,
    pub is_favorite: bool,
    pub is_new: bool,
    pub rating: u8,
    pub note: Seq<char>,
    pub index: usize,
    pub action_count: usize,
    pub item_id: Seq<char>,
    pub label_segments: Seq<TextSegmentView>,
}

/// A result item prepared for display.
#[derive(Debug, Clone, PartialEq)]
pub struct DisplayItem {
    pub label: String,
    pub sub: String,
    pub provider: String,
    /// The initial shown when there is no icon image.
    pub icon: String,
    /// Path of the icon image, if the icon is an absolute path.
    pub icon_path: String,
    /// Leaves of the first three tags.
    pub tags: Vec<String>,
    pub is_selected: bool,
    pub is_favorite: bool,
    pub is_new: bool,
    pub rating: u8,
    pub note: String,
    pub index: usize,
    pub action_count: usize,
    pub item_id: String,
    pub label_segments: Vec<TextSegment>,
}

impl View for DisplayItem {
    type V = DisplayItemView;

    open spec fn view(&self) -> DisplayItemView {
        DisplayItemView {
            label: self.label@,
            sub: self.sub@,
            provider: self.provider@,
            icon: self.icon@,
            icon_path: self.icon_path@,
            tags: str_views(self.tags@),
            is_selected: self.is_selected,
            is_favorite: self.is_favorite,
            is_new: self.is_new,
            rating: self.rating,
            note: self.note@,
            index: self.index,
            action_count: self.action_count,
            item_id: self.item_id@,
            label_segments: segment_views(self.label_segments@),
        }
    }
}

/// The upper-cased first character of `s`, or of `#` if `s` is empty.
pub open spec fn initial_of(s: Seq<char>) -> Seq<char> {
    seq![upper_first(if s.len() > 0 { s[0] } else { '#' })]
}

/// What a result item shows: an icon image for an absolute icon path, else
/// an initial (of the icon name, or of the label when there is no icon or
/// it is a path), the leaves of its first three tags, and the label split
/// at the matched positions.
pub open spec fn display_of(item: Item, index: usize, selected: bool) -> DisplayItemView {
    let is_path = item.icon@.len() > 0 && item.icon@[0] == '/';
    let n = if item.tags@.len() < 3 { item.tags@.len() } else { 3 };
    DisplayItemView {
        label: item.label@,
        sub: item.sub@,
        provider: item.provider@,
        icon: if is_path || item.icon@.len() == 0 { initial_of(item.label@) } else { initial_of(item.icon@) },
        icon_path: if is_path { item.icon@ } else { Seq::empty() },
        tags: item.tags@.take(n as int).map_values(|t: Seq<char>| tag_leaf(t)),
        is_selected: selected,
        is_favorite: item.pinned,
        is_new: false,
        rating: 0,
        note: Seq::empty(),
        index: index,
        action_count: item.actions@.len() as usize,
        item_id: item.id@,
        label_segments: highlight_spec(item.label@, item.match_positions@),
    }
}

/// The upper-cased first character of `s`, or of `#`.
fn initial(s: &str) -> (r: String)
    ensures
        r@ == initial_of(s@),
{
    let cs = chars_of(s);
    let c = if cs.len() > 0 {
        cs[0]
    } else {
        '#'
    };
    let mut r = String::new();
    crate::text::push_char(&mut r, char_upper_first(c));
    assert(r@ =~= initial_of(s@));
    r
}

impl DisplayItem {
    /// Prepares a result item for display at `index`.
    pub fn from_item(item: &Item, index: usize, selected: bool) -> (r: Self)
        ensures
            r@ == display_of(*item, index, selected),
    {
        let ic = chars_of(item.icon.as_str());
        let is_path = ic.len() > 0 && ic[0] == '/';
        let icon_path = if is_path {
            item.icon.clone()
        } else {
            String::new()
        };
        let icon = if is_path || ic.len() == 0 {
            initial(item.label.as_str())
        } else {
            initial(item.icon.as_str())
        };
        let all = item.tags.tags();
        let n = if all.len() < 3 {
            all.len()
        } else {
            3
        };
        let ghost want = item.tags@.take(n as int).map_values(|t: Seq<char>| tag_leaf(t));
        let mut tags: Vec<String> = Vec::new();
        let mut i: usize = 0;
        while i < n
            invariant
                n <= all@.len(),
                all@.map_values(|t: crate::tags::Tag| t@) == item.tags@,
                want == item.tags@.take(n as int).map_values(|t: Seq<char>| tag_leaf(t)),
                i <= n,
                str_views(tags@) == want.take(i as int),
            decreases n - i,
        {
            let ghost before = str_views(tags@);
            let leaf = all[i].leaf().to_owned();
            tags.push(leaf);
            assert(str_views(tags@) =~= before.push(tag_leaf(item.tags@[i as int])));
            assert(want.take(i + 1) =~= want.take(i as int).push(want[i as int]));
            i = i + 1;
        }
        assert(want.take(i as int) =~= want);
        DisplayItem {
            label: item.label.clone(),
            sub: item.sub.clone(),
            provider: item.provider.clone(),
            icon,
            icon_path,
            tags,
            is_selected: selected,
            is_favorite: item.pinned,
            is_new: false,
            rating: 0,
            note: String::new(),
            index,
            action_count: item.actions.len(),
            item_id: item.id.clone(),
            label_segments: highlight_segments(item.label.as_str(), item.match_positions.as_slice()),
        }
    }
}

// ── Action bar ─────────────────────────────────────────────────

/// An action of the selected item, as the action bar shows it.
#[derive(Debug, Clone, PartialEq)]
pub struct ActionInfo {
    pub name: String,
    pub modifier_label: String,
}

/// The actions of an item, as the action bar shows them.
pub fn action_infos(item: &Item) -> (r: Vec<ActionInfo>)
    ensures
        r@.len() == item.actions@.len(),
        forall|i: int|
            0 <= i < r@.len() ==> (#[trigger] r@[i]).name@ == item.actions@[i].name@
                && r@[i].modifier_label@ == modifier_label(item.actions@[i].modifier),
{
    let mut r: Vec<ActionInfo> = Vec::new();
    let mut i: usize = 0;
    while i < item.actions.len()
        invariant
            i <= item.actions@.len(),
            r@.len() == i,
            forall|j: int|
                0 <= j < i ==> (#[trigger] r@[j]).name@ == item.actions@[j].name@ && r@[j].modifier_label@
                    == modifier_label(item.actions@[j].modifier),
        decreases item.actions@.len() - i,
    {
        let a = &item.actions[i];
        r.push(ActionInfo { name: a.name.clone(), modifier_label: a.modifier.label().to_owned() });
        i = i + 1;
    }
    r
}

/// The position counter of the action bar, `<selected + 1>/<count>`; none
/// when there are no results.
pub fn ActionBar(result_count: usize, selected_index: usize) -> (r: Option<String>)
    requires
        selected_index < usize::MAX,
    ensures
        match r {
            Some(s) => result_count > 0 && s@ == decimal((selected_index + 1) as nat) + "/"@ + decimal(
                result_count as nat,
            ),
            None => result_count == 0,
        },
{
    if result_count == 0 {
        return None;
    }
    let mut s = decimal_string(selected_index as u64 + 1);
    s.append("/");
    let count = decimal_string(result_count as u64);
    s.append(count.as_str());
    Some(s)
}

// ── Result row labels ──────────────────────────────────────────

/// The content of a result row's small labels.
pub struct RowLabelsView {
    pub shortcut: Seq<char>,
    pub extra_actions: Option<Seq<char>>,
    pub rating_stars: Seq<char>,
    pub favorite_mark: Seq<char>,
}

/// The small labels of a result row.
#[derive(Debug, Clone, PartialEq)]
pub struct RowLabels {
    /// `⌘1` to `⌘9` on the first nine rows, empty after.
    pub shortcut: String,
    /// `+n` for the `n` actions beyond the first, when there are any.
    pub extra_actions: Option<String>,
    /// One star per rating point.
    pub rating_stars: String,
    /// A star on a favorite.
    pub favorite_mark: String,
}

impl View for RowLabels {
    type V = RowLabelsView;

    open spec fn view(&self) -> RowLabelsView {
        RowLabelsView {
            shortcut: self.shortcut@,
            extra_actions: crate::text::opt_view(self.extra_actions),
            rating_stars: self.rating_stars@,
            favorite_mark: self.favorite_mark@,
        }
    }
}

/// `n` stars.
pub open spec fn stars(n: nat) -> Seq<char> {
    Seq::new(n, |i: int| '\u{2605}')
}

/// The small labels of the row at `index` of an item with `action_count`
/// actions, rated `rating`, a favorite or not.
pub open spec fn row_labels_spec(index: usize, action_count: usize, rating: u8, is_favorite: bool) -> RowLabelsView {
    RowLabelsView {
        shortcut: if index < 9 {
            seq!['\u{2318}'] + decimal((index + 1) as nat)
        } else {
            Seq::empty()
        },
        extra_actions: if action_count > 1 {
            Some(seq!['+'] + decimal((action_count - 1) as nat))
        } else {
            None
        },
        rating_stars: stars(rating as nat),
        favorite_mark: if is_favorite {
            seq!['\u{2605}']
        } else {
            Seq::empty()
        },
    }
}

/// The small labels a result row shows beside the item: its keyboard
/// shortcut, the count of further actions, the rating stars and the
/// favorite star.
pub fn row_labels(item: &DisplayItem) -> (r: RowLabels)
    ensures
        r@ == row_labels_spec(item.index, item.action_count, item.rating, item.is_favorite),
{
    let mut shortcut = String::new();
    if item.index < 9 {
        crate::text::push_char(&mut shortcut, '\u{2318}');
        let d = decimal_string(item.index as u64 + 1);
        shortcut.append(d.as_str());
    }
    let extra_actions = if item.action_count > 1 {
        let mut e = String::new();
        crate::text::push_char(&mut e, '+');
        let d = decimal_string(item.action_count as u64 - 1);
        e.append(d.as_str());
        Some(e)
    } else {
        None
    };
    let mut rating_stars = String::new();
    let mut i: u8 = 0;
    while i < item.rating
        invariant
            i <= item.rating,
            rating_stars@ =~= stars(i as nat),
        decreases item.rating - i,
    {
        crate::text::push_char(&mut rating_stars, '\u{2605}');
        i = i + 1;
    }
    let mut favorite_mark = String::new();
    if item.is_favorite {
        crate::text::push_char(&mut favorite_mark, '\u{2605}');
    }
    let r = RowLabels { shortcut, extra_actions, rating_stars, favorite_mark };
    assert(r@.shortcut =~= row_labels_spec(item.index, item.action_count, item.rating, item.is_favorite).shortcut);
    assert(r@.favorite_mark =~= row_labels_spec(item.index, item.action_count, item.rating, item.is_favorite).favorite_mark);
    r
}

// ── Search bar ─────────────────────────────────────────────────

/// Full window with the sidebar, or a compact palette.
#[derive(Debug, Clone, Copy, PartialEq, Eq, Structural)]
pub enum LauncherMode {
    Full,
    Palette,
}

impl LauncherMode {
    /// The name shown on the mode button.
    pub fn label(&self) -> (r: &'static str)
        ensures
            r@ == (match self {
                LauncherMode::Full => "Full"@,
                LauncherMode::Palette => "Palette"@,
            }),
    {
        match self {
            LauncherMode::Full => "Full",
            LauncherMode::Palette => "Palette",
        }
    }
}

/// What the search bar shows besides the input.
#[derive(Debug, Clone, PartialEq)]
pub struct SearchBarView {
    /// Whether an active filter label is shown.
    pub has_tag: bool,
    /// Whether the result count is shown.
    pub show_count: bool,
    /// Placeholder of the input.
    pub placeholder: String,
}

/// What the search bar shows: the filter label when one is active, the
/// result count once there is a query or a filter, and a placeholder that
/// says whether a filter is active.
pub fn SearchBar(value: &str, active_tag_label: &str) -> (r: SearchBarView)
    ensures
        r.has_tag == (active_tag_label@.len() > 0),
        r.show_count == (value@.len() > 0 || active_tag_label@.len() > 0),
        r.placeholder@ == if active_tag_label@.len() > 0 { "Filter..."@ } else { "Search..."@ },
{
    let has_tag = !active_tag_label.is_empty();
    let show_count = !value.is_empty() || has_tag;
    let placeholder = if has_tag {
        "Filter...".to_owned()
    } else {
        "Search...".to_owned()
    };
    SearchBarView { has_tag, show_count, placeholder }
}

// ── Preset bar ─────────────────────────────────────────────────

/// A saved preset, as the preset bar shows it.
#[derive(Debug, Clone, PartialEq)]
pub struct PresetChip {
    pub name: String,
}

/// Whether the preset bar is shown: when there are presets or a filter to save.
pub fn PresetBar(presets: &[PresetChip], show_save: bool) -> (r: bool)
    ensures
        r == (presets@.len() > 0 || show_save),
{
    !(presets.len() == 0 && !show_save)
}

// ── Notes editor ───────────────────────────────────────────────

/// What a key press in the notes editor asks for.
#[derive(Debug, Clone, Copy, PartialEq, Eq, Structural)]
pub enum NotesOutcome {
    /// Keep editing.
    Continue,
    /// Close without saving.
    Close,
    /// Save the note, then close.
    SaveAndClose,
}

/// The notes editor's keys: Escape closes, Ctrl+Enter saves and closes.
pub fn NotesEditor(key: &LauncherKey, ctrl: bool) -> (r: NotesOutcome)
    ensures
        r == if *key == LauncherKey::Escape {
            NotesOutcome::Close
        } else if *key == LauncherKey::Enter && ctrl {
            NotesOutcome::SaveAndClose
        } else {
            NotesOutcome::Continue
        },
{
    match key {
        LauncherKey::Escape => NotesOutcome::Close,
        LauncherKey::Enter => if ctrl {
            NotesOutcome::SaveAndClose
        } else {
            NotesOutcome::Continue
        },
        _ => NotesOutcome::Continue,
    }
}

// ── Filter chips ───────────────────────────────────────────────

/// A root tag as a filter chip.
#[derive(Debug, Clone, PartialEq)]
pub struct ChipItem {
    pub id: String,
    pub label: String,
    pub icon: String,
    pub is_active: bool,
    pub is_excluded: bool,
    pub color: String,
}

/// What a filter chip click asks for.
#[derive(Debug, Clone, PartialEq)]
pub enum FilterAction {
    Clear,
    ToggleInclude(String),
    ToggleExclude(String),
    Remove(String),
}

/// The content of a filter action.
pub enum FilterActionView {
    Clear,
    ToggleInclude(Seq<char>),
    ToggleExclude(Seq<char>),
    Remove(Seq<char>),
}

impl View for FilterAction {
    type V = FilterActionView;

    open spec fn view(&self) -> FilterActionView {
        match self {
            FilterAction::Clear => FilterActionView::Clear,
            FilterAction::ToggleInclude(t) => FilterActionView::ToggleInclude(t@),
            FilterAction::ToggleExclude(t) => FilterActionView::ToggleExclude(t@),
            FilterAction::Remove(t) => FilterActionView::Remove(t@),
        }
    }
}

/// The chips of the root tags of a registry, marked by the filter.
pub fn tag_chips(registry: &TagRegistry, filter: &FilterState) -> (r: Vec<ChipItem>)
    requires
        registry.wf(),
    ensures
        ({
            let roots = crate::tags::infos_where(registry@.infos, crate::tags::root_pred());
            &&& r@.len() == roots.len()
            &&& forall|i: int|
                0 <= i < r@.len() ==> {
                    let c = #[trigger] r@[i];
                    &&& c.id@ == roots[i].tag
                    &&& c.label@ == roots[i].display_name
                    &&& c.icon@ == roots[i].icon
                    &&& c.color@ == roots[i].color
                    &&& c.is_active == filter@.included.contains(roots[i].tag)
                    &&& c.is_excluded == filter@.excluded.contains(roots[i].tag)
                }
        }),
{
    let roots = registry.root_tags();
    let mut r: Vec<ChipItem> = Vec::new();
    let mut i: usize = 0;
    while i < roots.len()
        invariant
            i <= roots@.len(),
            r@.len() == i,
            roots@.map_values(|t: &TagInfo| t@) == crate::tags::infos_where(
                registry@.infos,
                crate::tags::root_pred(),
            ),
            forall|j: int|
                0 <= j < i ==> {
                    let c = #[trigger] r@[j];
                    &&& c.id@ == roots@[j]@.tag
                    &&& c.label@ == roots@[j]@.display_name
                    &&& c.icon@ == roots@[j]@.icon
                    &&& c.color@ == roots@[j]@.color
                    &&& c.is_active == filter@.included.contains(roots@[j]@.tag)
                    &&& c.is_excluded == filter@.excluded.contains(roots@[j]@.tag)
                },
        decreases roots@.len() - i,
    {
        let info = roots[i];
        let path = info.tag.to_string();
        proof {
            crate::text::lemma_first_keyed_bounds(filter@.included, str_key(), path@);
            crate::text::lemma_first_keyed_bounds(filter@.excluded, str_key(), path@);
        }
        let active = position_str(&filter.included, path.as_str()).is_some();
        let excluded = position_str(&filter.excluded, path.as_str()).is_some();
        proof {
            lemma_contains_first_keyed(filter@.included, path@);
            lemma_contains_first_keyed(filter@.excluded, path@);
        }
        r.push(
            ChipItem {
                id: path,
                label: info.display_name.clone(),
                icon: info.icon.clone(),
                is_active: active,
                is_excluded: excluded,
                color: info.color.clone(),
            },
        );
        i = i + 1;
    }
    proof {
        assert forall|j: int| 0 <= j < roots@.len() implies roots@[j]@ == crate::tags::infos_where(
            registry@.infos,
            crate::tags::root_pred(),
        )[j] by {
            assert(roots@.map_values(|t: &TagInfo| t@)[j] == roots@[j]@);
        }
    }
    r
}

/// A sequence contains `k` exactly when `k` has a first position in it.
pub proof fn lemma_contains_first_keyed(s: Seq<Seq<char>>, k: Seq<char>)
    ensures
        s.contains(k) <==> first_keyed(s, str_key(), k) >= 0,
    decreases s.len(),
{
    if s.len() > 0 && s[0] != k {
        let t = s.drop_first();
        lemma_contains_first_keyed(t, k);
        if s.contains(k) {
            let j = choose|j: int| 0 <= j < s.len() && s[j] == k;
            assert(t[j - 1] == k);
        }
        if t.contains(k) {
            let j = choose|j: int| 0 <= j < t.len() && t[j] == k;
            assert(s[j + 1] == k);
        }
    } else if s.len() > 0 {
        assert(s[0] == k);
    }
}

/// The prefix a chip's label gets: `-` when excluded, `+` when included.
pub open spec fn chip_prefix(is_active: bool, is_excluded: bool) -> Seq<char> {
    if is_excluded {
        "-"@
    } else if is_active {
        "+"@
    } else {
        Seq::empty()
    }
}

/// How a chip is styled.
#[derive(Debug, Clone, Copy, PartialEq, Eq, Structural)]
pub enum ChipStyle {
    Included,
    Excluded,
    Plain,
}

/// A chip as the chip bar shows it.
#[derive(Debug, Clone, PartialEq)]
pub struct ChipRow {
    pub id: String,
    /// The label, after its prefix.
    pub text: String,
    pub style: ChipStyle,
}

/// What the chip bar shows.
#[derive(Debug, Clone, PartialEq)]
pub struct FilterChipsView {
    /// Whether the Clear chip is shown.
    pub show_clear: bool,
    pub chips: Vec<ChipRow>,
}

/// The chip bar: nothing without chips; otherwise a Clear chip when a
/// filter is active, and each chip with its prefix and style.
pub fn FilterChips(chips: &[ChipItem], has_active: bool) -> (r: Option<FilterChipsView>)
    ensures
        chips@.len() == 0 <==> r is None,
        match r {
            Some(v) => {
                &&& v.show_clear == has_active
                &&& v.chips@.len() == chips@.len()
                &&& forall|i: int|
                    0 <= i < chips@.len() ==> {
                        let c = chips@[i];
                        let row = #[trigger] v.chips@[i];
                        &&& row.id@ == c.id@
                        &&& row.text@ == chip_prefix(c.is_active, c.is_excluded) + c.label@
                        &&& row.style == if c.is_active {
                            ChipStyle::Included
                        } else if c.is_excluded {
                            ChipStyle::Excluded
                        } else {
                            ChipStyle::Plain
                        }
                    }
            },
            None => true,
        },
{
    if chips.len() == 0 {
        return None;
    }
    let mut rows: Vec<ChipRow> = Vec::new();
    let mut i: usize = 0;
    while i < chips.len()
        invariant
            i <= chips@.len(),
            rows@.len() == i,
            forall|j: int|
                0 <= j < i ==> {
                    let c = chips@[j];
                    let row = #[trigger] rows@[j];
                    &&& row.id@ == c.id@
                    &&& row.text@ == chip_prefix(c.is_active, c.is_excluded) + c.label@
                    &&& row.style == if c.is_active {
                        ChipStyle::Included
                    } else if c.is_excluded {
                        ChipStyle::Excluded
                    } else {
                        ChipStyle::Plain
                    }
                },
        decreases chips@.len() - i,
    {
        let c = &chips[i];
        let mut text = if c.is_excluded {
            "-".to_owned()
        } else if c.is_active {
            "+".to_owned()
        } else {
            String::new()
        };
        text.append(c.label.as_str());
        let style = if c.is_active {
            ChipStyle::Included
        } else if c.is_excluded {
            ChipStyle::Excluded
        } else {
            ChipStyle::Plain
        };
        rows.push(ChipRow { id: c.id.clone(), text, style });
        i = i + 1;
    }
    Some(FilterChipsView { show_clear: has_active, chips: rows })
}

/// What clicking a chip asks for: Ctrl removes the tag, Alt or Shift
/// toggles it as excluded, a plain click on an active chip removes it, and
/// on an inactive chip includes it.
pub fn chip_click(chip: &ChipItem, ctrl: bool, alt: bool, shift: bool) -> (r: FilterAction)
    ensures
        r@ == if ctrl {
            FilterActionView::Remove(chip.id@)
        } else if alt || shift {
            FilterActionView::ToggleExclude(chip.id@)
        } else if chip.is_active || chip.is_excluded {
            FilterActionView::Remove(chip.id@)
        } else {
            FilterActionView::ToggleInclude(chip.id@)
        },
{
    if ctrl {
        FilterAction::Remove(chip.id.clone())
    } else if alt || shift {
        FilterAction::ToggleExclude(chip.id.clone())
    } else if chip.is_active || chip.is_excluded {
        FilterAction::Remove(chip.id.clone())
    } else {
        FilterAction::ToggleInclude(chip.id.clone())
    }
}

// ── Sidebar ────────────────────────────────────────────────────

/// A tag in the sidebar tree.
#[derive(Debug, Clone, PartialEq)]
pub struct SidebarNode {
    pub id: String,
    pub label: String,
    pub icon: String,
    pub depth: usize,
    pub has_children: bool,
    pub count: Option<usize>,
}

/// What a sidebar click asks for.
#[derive(Debug, Clone, PartialEq)]
pub enum SidebarAction {
    SelectAll,
    Select(String),
    AddInclude(String),
    AddExclude(String),
    Remove(String),
}

/// The content of a sidebar action.
pub enum SidebarActionView {
    SelectAll,
    Select(Seq<char>),
    AddInclude(Seq<char>),
    AddExclude(Seq<char>),
    Remove(Seq<char>),
}

impl View for SidebarAction {
    type V = SidebarActionView;

    open spec fn view(&self) -> SidebarActionView {
        match self {
            SidebarAction::SelectAll => SidebarActionView::SelectAll,
            SidebarAction::Select(t) => SidebarActionView::Select(t@),
            SidebarAction::AddInclude(t) => SidebarActionView::AddInclude(t@),
            SidebarAction::AddExclude(t) => SidebarActionView::AddExclude(t@),
            SidebarAction::Remove(t) => SidebarActionView::Remove(t@),
        }
    }
}

/// The id of a sidebar node.
pub open spec fn node_key() -> spec_fn(SidebarNode) -> Seq<char> {
    |n: SidebarNode| n.id@
}

/// Scanning back from position `k - 1`: whether a node shallower than
/// `depth` is collapsed before a root is reached.
pub open spec fn collapsed_above(
    nodes: Seq<SidebarNode>,
    depth: usize,
    collapsed: Seq<Seq<char>>,
    k: int,
) -> bool
    decreases k,
{
    if k <= 0 {
        false
    } else {
        let n = nodes[k - 1];
        if n.depth < depth {
            if collapsed.contains(n.id@) {
                true
            } else if n.depth == 0 {
                false
            } else {
                collapsed_above(nodes, depth, collapsed, k - 1)
            }
        } else {
            collapsed_above(nodes, depth, collapsed, k - 1)
        }
    }
}

/// Whether the node `id` lies under a collapsed node: looking back from its
/// first position, a shallower node is collapsed before a root is passed.
pub open spec fn ancestor_collapsed(nodes: Seq<SidebarNode>, id: Seq<char>, collapsed: Seq<Seq<char>>) -> bool {
    let i = first_keyed(nodes, node_key(), id);
    if i < 0 {
        false
    } else if nodes[i].depth == 0 {
        false
    } else {
        collapsed_above(nodes, nodes[i].depth, collapsed, i)
    }
}

/// Whether a sidebar node is hidden under a collapsed node.
pub fn is_ancestor_collapsed(nodes: &[SidebarNode], id: &str, collapsed: &[String]) -> (r: bool)
    ensures
        r == ancestor_collapsed(nodes@, id@, str_views(collapsed@)),
{
    let key = id.to_owned();
    let mut idx: usize = 0;
    while idx < nodes.len() && nodes[idx].id != key
        invariant
            idx <= nodes@.len(),
            key@ == id@,
            forall|j: int| 0 <= j < idx ==> node_key()(nodes@[j]) != id@,
        decreases nodes@.len() - idx,
    {
        idx = idx + 1;
    }
    proof {
        lemma_first_keyed(nodes@, node_key(), id@, idx as int);
    }
    if idx == nodes.len() {
        return false;
    }
    let depth = nodes[idx].depth;
    if depth == 0 {
        return false;
    }
    let ghost cs = str_views(collapsed@);
    assert(ancestor_collapsed(nodes@, id@, cs) == collapsed_above(nodes@, depth, cs, idx as int));
    let mut i: usize = idx;
    while i > 0
        invariant
            i <= idx < nodes@.len(),
            depth == nodes@[idx as int].depth,
            cs == str_views(collapsed@),
            collapsed_above(nodes@, depth, cs, idx as int) == collapsed_above(nodes@, depth, cs, i as int),
            ancestor_collapsed(nodes@, id@, cs) == collapsed_above(nodes@, depth, cs, idx as int),
        decreases i,
    {
        let n = &nodes[i - 1];
        if n.depth < depth {
            proof {
                crate::text::lemma_index_of_str(cs, n.id@);
            }
            if crate::text::find_str(collapsed, n.id.as_str()).is_some() {
                return true;
            }
            if n.depth == 0 {
                return false;
            }
        }
        i = i - 1;
    }
    false
}

/// A sidebar row.
#[derive(Debug, Clone, PartialEq)]
pub struct VisibleNode {
    pub id: String,
    pub label: String,
    pub icon: String,
    pub has_children: bool,
    pub is_active: bool,
    pub is_collapsed: bool,
    pub depth: usize,
    pub count_label: String,
}

/// Whether the row of `n` is as the sidebar shows it.
pub open spec fn shows_node(
    row: VisibleNode,
    n: SidebarNode,
    active: Option<Seq<char>>,
    collapsed: Seq<Seq<char>>,
) -> bool {
    &&& row.id@ == n.id@
    &&& row.label@ == n.label@
    &&& row.icon@ == n.icon@
    &&& row.has_children == n.has_children
    &&& row.is_active == (active == Some(n.id@))
    &&& row.is_collapsed == collapsed.contains(n.id@)
    &&& row.depth == n.depth
    &&& row.count_label@ == match n.count {
        Some(c) => decimal(c as nat),
        None => Seq::empty(),
    }
}

/// The positions of the nodes not hidden under a collapsed node, among the first `k`.
pub open spec fn visible_upto(nodes: Seq<SidebarNode>, collapsed: Seq<Seq<char>>, k: int) -> Seq<int>
    decreases k,
{
    if k <= 0 {
        Seq::empty()
    } else if ancestor_collapsed(nodes, nodes[k - 1].id@, collapsed) {
        visible_upto(nodes, collapsed, k - 1)
    } else {
        visible_upto(nodes, collapsed, k - 1).push(k - 1)
    }
}

/// What the sidebar shows: first an "All" row, active when no tag is the
/// active filter, then a row for every node not hidden under a collapsed
/// node, in order, marked active when it is the active filter tag.
#[derive(Debug, Clone, PartialEq)]
pub struct SidebarView {
    /// Whether the "All" row is highlighted.
    pub all_active: bool,
    /// The node rows, after the "All" row.
    pub rows: Vec<VisibleNode>,
}

/// The sidebar: the "All" row and the rows of the visible nodes.
pub fn Sidebar(nodes: &[SidebarNode], active_id: Option<&str>, collapsed: &[String]) -> (r: SidebarView)
    ensures
        r.all_active == (active_id is None),
        ({
            let vis = visible_upto(nodes@, str_views(collapsed@), nodes@.len() as int);
            &&& r.rows@.len() == vis.len()
            &&& forall|i: int|
                0 <= i < r.rows@.len() ==> shows_node(
                    #[trigger] r.rows@[i],
                    nodes@[vis[i]],
                    crate::text::opt_str_view(active_id),
                    str_views(collapsed@),
                )
        }),
{
    let rows = sidebar_rows(nodes, active_id, collapsed);
    SidebarView { all_active: active_id.is_none(), rows }
}

/// The rows of the visible nodes.
fn sidebar_rows(nodes: &[SidebarNode], active_id: Option<&str>, collapsed: &[String]) -> (r: Vec<VisibleNode>)
    ensures
        ({
            let vis = visible_upto(nodes@, str_views(collapsed@), nodes@.len() as int);
            &&& r@.len() == vis.len()
            &&& forall|i: int|
                0 <= i < r@.len() ==> shows_node(
                    #[trigger] r@[i],
                    nodes@[vis[i]],
                    crate::text::opt_str_view(active_id),
                    str_views(collapsed@),
                )
        }),
{
    let ghost cs = str_views(collapsed@);
    let ghost act = crate::text::opt_str_view(active_id);
    let mut r: Vec<VisibleNode> = Vec::new();
    let mut i: usize = 0;
    while i < nodes.len()
        invariant
            i <= nodes@.len(),
            cs == str_views(collapsed@),
            act == crate::text::opt_str_view(active_id),
            r@.len() == visible_upto(nodes@, cs, i as int).len(),
            forall|j: int| 0 <= j < r@.len() ==> 0 <= #[trigger] visible_upto(nodes@, cs, i as int)[j] < i,
            forall|j: int|
                0 <= j < r@.len() ==> shows_node(
                    #[trigger] r@[j],
                    nodes@[visible_upto(nodes@, cs, i as int)[j]],
                    act,
                    cs,
                ),
        decreases nodes@.len() - i,
    {
        let n = &nodes[i];
        if !is_ancestor_collapsed(nodes, n.id.as_str(), collapsed) {
            let is_active = match active_id {
                Some(a) => crate::text::str_eq(a, n.id.as_str()),
                None => false,
            };
            proof {
                crate::text::lemma_index_of_str(cs, n.id@);
            }
            let is_collapsed = crate::text::find_str(collapsed, n.id.as_str()).is_some();
            let count_label = match n.count {
                Some(c) => decimal_string(c as u64),
                None => String::new(),
            };
            r.push(
                VisibleNode {
                    id: n.id.clone(),
                    label: n.label.clone(),
                    icon: n.icon.clone(),
                    has_children: n.has_children,
                    is_active,
                    is_collapsed,
                    depth: n.depth,
                    count_label,
                },
            );
        }
        i = i + 1;
    }
    r
}

/// What clicking a sidebar row asks for: Ctrl removes the tag, Alt
/// excludes it, Shift adds it, a plain click selects it alone.
pub fn sidebar_click(id: &str, ctrl: bool, alt: bool, shift: bool) -> (r: SidebarAction)
    ensures
        r@ == if ctrl {
            SidebarActionView::Remove(id@)
        } else if alt {
            SidebarActionView::AddExclude(id@)
        } else if shift {
            SidebarActionView::AddInclude(id@)
        } else {
            SidebarActionView::Select(id@)
        },
{
    if ctrl {
        SidebarAction::Remove(id.to_owned())
    } else if alt {
        SidebarAction::AddExclude(id.to_owned())
    } else if shift {
        SidebarAction::AddInclude(id.to_owned())
    } else {
        SidebarAction::Select(id.to_owned())
    }
}

/// A click in the sidebar: on the "All" row, or on the node row at a
/// position (not on its collapse arrow), with the modifier keys held.
#[derive(Debug, Clone, Copy, PartialEq, Eq, Structural)]
pub enum SidebarEvent {
    All,
    Row { index: usize, ctrl: bool, alt: bool, shift: bool },
}

/// What a click in the sidebar asks for: the "All" row selects everything;
/// a node row acts as [`sidebar_click`] says on its tag; nothing for a
/// position past the rows.
pub fn sidebar_event(view: &SidebarView, ev: SidebarEvent) -> (r: Option<SidebarAction>)
    ensures
        match ev {
            SidebarEvent::All => r matches Some(a) && a@ == SidebarActionView::SelectAll,
            SidebarEvent::Row { index, ctrl, alt, shift } => if index < view.rows@.len() {
                let id = view.rows@[index as int].id@;
                r matches Some(a) && a@ == if ctrl {
                    SidebarActionView::Remove(id)
                } else if alt {
                    SidebarActionView::AddExclude(id)
                } else if shift {
                    SidebarActionView::AddInclude(id)
                } else {
                    SidebarActionView::Select(id)
                }
            } else {
                r is None
            },
        },
{
    match ev {
        SidebarEvent::All => Some(SidebarAction::SelectAll),
        SidebarEvent::Row { index, ctrl, alt, shift } => {
            if index < view.rows.len() {
                Some(sidebar_click(view.rows[index].id.as_str(), ctrl, alt, shift))
            } else {
                None
            }
        },
    }
}

/// Collapses a sidebar node, or expands it if it is collapsed.
pub fn toggle_collapsed(collapsed: &mut Vec<String>, id: &str)
    ensures
        if str_views(old(collapsed)@).contains(id@) {
            str_views(final(collapsed)@) == drop_keyed(str_views(old(collapsed)@), str_key(), id@)
        } else {
            str_views(final(collapsed)@) == str_views(old(collapsed)@).push(id@)
        },
{
    proof {
        lemma_contains_first_keyed(str_views(collapsed@), id@);
    }
    if position_str(collapsed, id).is_some() {
        *collapsed = without_str(collapsed, id);
    } else {
        let ghost before = str_views(collapsed@);
        collapsed.push(id.to_owned());
        assert(str_views(collapsed@) =~= before.push(id@));
    }
}

// ── Quick tag ──────────────────────────────────────────────────

/// A tag offered by the quick tag overlay.
#[derive(Debug, Clone, PartialEq)]
pub struct QuickTagOption {
    pub path: String,
    pub label: String,
    pub color: String,
}

/// A row of the quick tag overlay.
#[derive(Debug, Clone, PartialEq)]
pub struct QuickTagRow {
    pub path: String,
    pub label: String,
    pub color: String,
    /// Whether the item has the tag already.
    pub is_assigned: bool,
}

/// Whether a tag option matches the overlay's query: every option does
/// when the query is empty; otherwise its label or path contains the query,
/// ignoring case.
pub open spec fn option_matches(o: QuickTagOption, query: Seq<char>) -> bool {
    query.len() == 0 || has_substring(lowercase(o.label@), lowercase(query)) || has_substring(
        lowercase(o.path@),
        lowercase(query),
    )
}

/// The positions of matching options among the first `k`.
pub open spec fn matching_upto(opts: Seq<QuickTagOption>, query: Seq<char>, k: int) -> Seq<int>
    decreases k,
{
    if k <= 0 {
        Seq::empty()
    } else if option_matches(opts[k - 1], query) {
        matching_upto(opts, query, k - 1).push(k - 1)
    } else {
        matching_upto(opts, query, k - 1)
    }
}

/// At most the first `n` elements of `s`.
pub open spec fn at_most<A>(s: Seq<A>, n: nat) -> Seq<A> {
    if s.len() <= n {
        s
    } else {
        s.take(n as int)
    }
}

proof fn lemma_matching_upto_bounds(opts: Seq<QuickTagOption>, query: Seq<char>, k: int)
    requires
        0 <= k,
    ensures
        forall|j: int| 0 <= j < matching_upto(opts, query, k).len() ==> 0 <= #[trigger] matching_upto(opts, query, k)[j] < k,
    decreases k,
{
    if k > 0 {
        lemma_matching_upto_bounds(opts, query, k - 1);
        let prev = matching_upto(opts, query, k - 1);
        if option_matches(opts[k - 1], query) {
            assert forall|j: int| 0 <= j < prev.push(k - 1).len() implies 0 <= #[trigger] prev.push(k - 1)[j] < k by {
                if j < prev.len() {
                    assert(prev.push(k - 1)[j] == prev[j]);
                }
            }
        }
    }
}

/// The quick tag overlay's list: the first 15 options matching the query,
/// each marked when the item has it already.
pub fn QuickTag(current_tags: &[String], available_tags: &[QuickTagOption], query: &str) -> (r: Vec<QuickTagRow>)
    ensures
        ({
            let m = at_most(matching_upto(available_tags@, query@, available_tags@.len() as int), 15);
            &&& r@.len() == m.len()
            &&& forall|i: int|
                0 <= i < r@.len() ==> {
                    let o = available_tags@[m[i]];
                    let row = #[trigger] r@[i];
                    &&& row.path@ == o.path@
                    &&& row.label@ == o.label@
                    &&& row.color@ == o.color@
                    &&& row.is_assigned == str_views(current_tags@).contains(o.path@)
                }
        }),
{
    let q = to_lowercase(query);
    let qc = chars_of(q.as_str());
    
    let mut r: Vec<QuickTagRow> = Vec::new();
    let mut i: usize = 0;
    while i < available_tags.len()
        invariant
            i <= available_tags@.len(),
            qc@ == lowercase(query@),
            ({
                let m = at_most(matching_upto(available_tags@, query@, i as int), 15);
                &&& r@.len() == m.len()
                &&& forall|j: int|
                    0 <= j < r@.len() ==> {
                        let o = available_tags@[m[j]];
                        let row = #[trigger] r@[j];
                        &&& row.path@ == o.path@
                        &&& row.label@ == o.label@
                        &&& row.color@ == o.color@
                        &&& row.is_assigned == str_views(current_tags@).contains(o.path@)
                    }
            }),
        decreases available_tags@.len() - i,
    {
        let o = &available_tags[i];
        let matches = if query.is_empty() {
            true
        } else {
            let l = to_lowercase(o.label.as_str());
            let p = to_lowercase(o.path.as_str());
            contains_chars(chars_of(l.as_str()).as_slice(), qc.as_slice()) || contains_chars(
                chars_of(p.as_str()).as_slice(),
                qc.as_slice(),
            )
        };
        let ghost before = matching_upto(available_tags@, query@, i as int);
        if matches && r.len() < 15 {
            proof {
                crate::text::lemma_index_of_str(str_views(current_tags@), o.path@);
            }
            let assigned = crate::text::find_str(current_tags, o.path.as_str()).is_some();
            r.push(
                QuickTagRow {
                    path: o.path.clone(),
                    label: o.label.clone(),
                    color: o.color.clone(),
                    is_assigned: assigned,
                },
            );
            assert(matching_upto(available_tags@, query@, i + 1) == before.push(i as int));
            assert(at_most(before.push(i as int), 15) =~= at_most(before, 15).push(i as int));
        } else if matches {
            assert(at_most(before.push(i as int), 15) =~= at_most(before, 15));
        }
        i = i + 1;
    }
    r
}

/// An input of the quick tag overlay.
#[derive(Debug, Clone, PartialEq)]
pub enum QuickTagEvent {
    /// A click on the listed option at a position.
    ClickOption(usize),
    /// Enter in the search input.
    Enter,
    /// A click on one of the item's current tags.
    ClickCurrent(String),
    /// Escape in the search input.
    Escape,
    /// A click on the backdrop around the overlay.
    Backdrop,
}

/// What the quick tag overlay asks for.
#[derive(Debug, Clone, PartialEq)]
pub enum QuickTagAction {
    /// Assign this tag to the item.
    Add(String),
    /// Take this tag from the item.
    Remove(String),
    /// Close the overlay.
    Close,
    /// Nothing.
    Nothing,
}

/// The content of a quick tag action.
pub enum QuickTagActionView {
    Add(Seq<char>),
    Remove(Seq<char>),
    Close,
    Nothing,
}

impl View for QuickTagAction {
    type V = QuickTagActionView;

    open spec fn view(&self) -> QuickTagActionView {
        match self {
            QuickTagAction::Add(t) => QuickTagActionView::Add(t@),
            QuickTagAction::Remove(t) => QuickTagActionView::Remove(t@),
            QuickTagAction::Close => QuickTagActionView::Close,
            QuickTagAction::Nothing => QuickTagActionView::Nothing,
        }
    }
}

/// What an input of the quick tag overlay asks for, given the listed rows:
/// a click on an option assigns its tag, Enter assigns the first listed
/// option, a click on a current tag takes it away, Escape and a click on the
/// backdrop close the overlay.
pub fn quick_tag_event(rows: &[QuickTagRow], ev: &QuickTagEvent) -> (r: QuickTagAction)
    ensures
        r@ == match ev {
            QuickTagEvent::ClickOption(i) => if *i < rows@.len() {
                QuickTagActionView::Add(rows@[*i as int].path@)
            } else {
                QuickTagActionView::Nothing
            },
            QuickTagEvent::Enter => if rows@.len() > 0 {
                QuickTagActionView::Add(rows@[0].path@)
            } else {
                QuickTagActionView::Nothing
            },
            QuickTagEvent::ClickCurrent(t) => QuickTagActionView::Remove(t@),
            QuickTagEvent::Escape => QuickTagActionView::Close,
            QuickTagEvent::Backdrop => QuickTagActionView::Close,
        },
{
    match ev {
        QuickTagEvent::ClickOption(i) => {
            if *i < rows.len() {
                QuickTagAction::Add(rows[*i].path.clone())
            } else {
                QuickTagAction::Nothing
            }
        },
        QuickTagEvent::Enter => {
            if rows.len() > 0 {
                QuickTagAction::Add(rows[0].path.clone())
            } else {
                QuickTagAction::Nothing
            }
        },
        QuickTagEvent::ClickCurrent(t) => QuickTagAction::Remove(t.clone()),
        QuickTagEvent::Escape => QuickTagAction::Close,
        QuickTagEvent::Backdrop => QuickTagAction::Close,
    }
}

} // verus!
