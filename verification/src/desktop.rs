//! Desktop applications: freedesktop `.desktop` entries, parsed from their
//! text, and the launcher items they become. Reading the files and spawning
//! applications is done by the application.

use vstd::prelude::*;

use crate::launcher::join_words;
use crate::provider::{Item, ItemView};
use crate::tags::normalize_tag_path;
use crate::text::{
    chars_of, is_whitespace, is_ws, lowercase, opt_str_view, split_on, str_views, string_of_range,
    to_lowercase, trim_range, trim_ws,
};
use crate::actions::split_once;

verus! {

/// An application from a `.desktop` file.
#[derive(Debug)]
pub struct DesktopEntry {
    /// The file name without `.desktop`.
    pub id: String,
    pub name: String,
    pub generic_name: String,
    pub comment: String,
    /// The command line, with field codes.
    pub command: String,
    /// The icon name.
    pub icon: String,
    /// The icon file the name resolved to, or empty.
    pub icon_path: String,
    pub keywords: Vec<String>,
    pub categories: Vec<String>,
    /// Hidden or not to be displayed.
    pub hidden: bool,
}

/// What has been read of a `.desktop` file so far.
pub struct DesktopParse {
    pub in_entry: bool,
    pub name: Seq<char>,
    pub generic_name: Seq<char>,
    pub comment: Seq<char>,
    pub command: Seq<char>,
    pub icon: Seq<char>,
    pub entry_type: Seq<char>,
    pub keywords: Seq<Seq<char>>,
    pub categories: Seq<Seq<char>>,
    pub hidden: bool,
    pub no_display: bool,
}

/// Nothing read yet.
pub open spec fn parse_start() -> DesktopParse {
    DesktopParse {
        in_entry: false,
        name: Seq::empty(),
        generic_name: Seq::empty(),
        comment: Seq::empty(),
        command: Seq::empty(),
        icon: Seq::empty(),
        entry_type: Seq::empty(),
        keywords: Seq::empty(),
        categories: Seq::empty(),
        hidden: false,
        no_display: false,
    }
}

/// The non-empty trimmed parts of a `;`-separated list, among the first `k`.
pub open spec fn list_parts(parts: Seq<Seq<char>>, k: int) -> Seq<Seq<char>>
    decreases k,
{
    if k <= 0 {
        Seq::empty()
    } else {
        let t = trim_ws(parts[k - 1]);
        if t.len() > 0 {
            list_parts(parts, k - 1).push(t)
        } else {
            list_parts(parts, k - 1)
        }
    }
}

/// The values of a `;`-separated list: trimmed, empty ones dropped.
pub open spec fn list_values(v: Seq<char>) -> Seq<Seq<char>> {
    let parts = split_on(v, ';');
    list_parts(parts, parts.len() as int)
}

/// What one line of a `.desktop` file changes: a `[section]` line starts a
/// section (only `[Desktop Entry]` is read); a `key=value` line inside it
/// sets the known keys; other lines change nothing.
pub open spec fn parse_line(st: DesktopParse, raw: Seq<char>) -> DesktopParse {
    let line = trim_ws(raw);
    if line.len() > 0 && line[0] == '[' {
        DesktopParse { in_entry: line == "[Desktop Entry]"@, ..st }
    } else if !st.in_entry {
        st
    } else {
        match split_once(line, '=') {
            Some((k0, v0)) => {
                let k = trim_ws(k0);
                let v = trim_ws(v0);
                if k == "Name"@ {
                    DesktopParse { name: v, ..st }
                } else if k == "GenericName"@ {
                    DesktopParse { generic_name: v, ..st }
                } else if k == "Comment"@ {
                    DesktopParse { comment: v, ..st }
                } else if k == "Exec"@ {
                    DesktopParse { command: v, ..st }
                } else if k == "Icon"@ {
                    DesktopParse { icon: v, ..st }
                } else if k == "Type"@ {
                    DesktopParse { entry_type: v, ..st }
                } else if k == "Hidden"@ {
                    DesktopParse { hidden: v == "true"@, ..st }
                } else if k == "NoDisplay"@ {
                    DesktopParse { no_display: v == "true"@, ..st }
                } else if k == "Keywords"@ {
                    DesktopParse { keywords: list_values(v), ..st }
                } else if k == "Categories"@ {
                    DesktopParse { categories: list_values(v), ..st }
                } else {
                    st
                }
            },
            None => st,
        }
    }
}

/// What the first `k` lines give.
pub open spec fn parse_lines(lines: Seq<Seq<char>>, k: int) -> DesktopParse
    decreases k,
{
    if k <= 0 {
        parse_start()
    } else {
        parse_line(parse_lines(lines, k - 1), lines[k - 1])
    }
}

/// The content of a desktop entry.
pub struct DesktopEntryView {
    pub id: Seq<char>,
    pub name: Seq<char>,
    pub generic_name: Seq<char>,
    pub comment: Seq<char>,
    pub command: Seq<char>,
    pub icon: Seq<char>,
    pub icon_path: Seq<char>,
    pub keywords: Seq<Seq<char>>,
    pub categories: Seq<Seq<char>>,
    pub hidden: bool,
}

impl View for DesktopEntry {
    type V = DesktopEntryView;

    open spec fn view(&self) -> DesktopEntryView {
        DesktopEntryView {
            id: self.id@,
            name: self.name@,
            generic_name: self.generic_name@,
            comment: self.comment@,
            command: self.command@,
            icon: self.icon@,
            icon_path: self.icon_path@,
            keywords: str_views(self.keywords@),
            categories: str_views(self.categories@),
            hidden: self.hidden,
        }
    }
}

/// The application a `.desktop` file describes: only an entry of type
/// `Application` with a name; hidden if `Hidden` or `NoDisplay` is true.
pub open spec fn desktop_entry_spec(content: Seq<char>, id: Seq<char>) -> Option<DesktopEntryView> {
    let lines = split_on(content, '\n');
    let st = parse_lines(lines, lines.len() as int);
    if st.entry_type != "Application"@ || st.name.len() == 0 {
        None
    } else {
        Some(
            DesktopEntryView {
                id,
                name: st.name,
                generic_name: st.generic_name,
                comment: st.comment,
                command: st.command,
                icon: st.icon,
                icon_path: Seq::empty(),
                keywords: st.keywords,
                categories: st.categories,
                hidden: st.hidden || st.no_display,
            },
        )
    }
}

/// The values of a `;`-separated list.
fn parse_list(v: &str) -> (r: Vec<String>)
    ensures
        str_views(r@) == list_values(v@),
{
    let parts = crate::text::split_at_char(v, ';');
    let ghost ps = str_views(parts@);
    let mut r: Vec<String> = Vec::new();
    let mut i: usize = 0;
    while i < parts.len()
        invariant
            ps == str_views(parts@),
            ps == split_on(v@, ';'),
            i <= parts@.len(),
            str_views(r@) == list_parts(ps, i as int),
        decreases parts@.len() - i,
    {
        let t = crate::text::trim_str(parts[i].as_str());
        if !t.as_str().is_empty() {
            let ghost before = str_views(r@);
            r.push(t);
            assert(str_views(r@) =~= before.push(trim_ws(ps[i as int])));
        }
        i = i + 1;
    }
    r
}

/// The parse state, as values.
struct Fields {
    in_entry: bool,
    name: String,
    generic_name: String,
    comment: String,
    command: String,
    icon: String,
    entry_type: String,
    keywords: Vec<String>,
    categories: Vec<String>,
    hidden: bool,
    no_display: bool,
}

impl Fields {
    spec fn view_parse(&self) -> DesktopParse {
        DesktopParse {
            in_entry: self.in_entry,
            name: self.name@,
            generic_name: self.generic_name@,
            comment: self.comment@,
            command: self.command@,
            icon: self.icon@,
            entry_type: self.entry_type@,
            keywords: str_views(self.keywords@),
            categories: str_views(self.categories@),
            hidden: self.hidden,
            no_display: self.no_display,
        }
    }

    /// Reads one line.
    fn read_line(&mut self, raw: &str)
        ensures
            final(self).view_parse() == parse_line(old(self).view_parse(), raw@),
    {
        let line = crate::text::trim_str(raw);
        let lv = chars_of(line.as_str());
        if lv.len() > 0 && lv[0] == '[' {
            self.in_entry = line == "[Desktop Entry]".to_owned();
            return;
        }
        if !self.in_entry {
            return;
        }
        match crate::actions::split_once_char(line.as_str(), '=') {
            Some((k0, v0)) => {
                let k = crate::text::trim_str(k0.as_str());
                let v = crate::text::trim_str(v0.as_str());
                if k == "Name".to_owned() {
                    self.name = v;
                } else if k == "GenericName".to_owned() {
                    self.generic_name = v;
                } else if k == "Comment".to_owned() {
                    self.comment = v;
                } else if k == "Exec".to_owned() {
                    self.command = v;
                } else if k == "Icon".to_owned() {
                    self.icon = v;
                } else if k == "Type".to_owned() {
                    self.entry_type = v;
                } else if k == "Hidden".to_owned() {
                    self.hidden = v == "true".to_owned();
                } else if k == "NoDisplay".to_owned() {
                    self.no_display = v == "true".to_owned();
                } else if k == "Keywords".to_owned() {
                    self.keywords = parse_list(v.as_str());
                } else if k == "Categories".to_owned() {
                    self.categories = parse_list(v.as_str());
                }
            },
            None => {},
        }
    }
}

/// Parses the text of a `.desktop` file whose name (without `.desktop`) is `id`.
pub fn parse_desktop_entry(content: &str, id: &str) -> (r: Option<DesktopEntry>)
    ensures
        match desktop_entry_spec(content@, id@) {
            Some(e) => r matches Some(x) && x@ == e,
            None => r is None,
        },
{
    let lines = crate::text::split_at_char(content, '\n');
    let ghost ls = str_views(lines@);
    let mut f = Fields {
        in_entry: false,
        name: String::new(),
        generic_name: String::new(),
        comment: String::new(),
        command: String::new(),
        icon: String::new(),
        entry_type: String::new(),
        keywords: Vec::new(),
        categories: Vec::new(),
        hidden: false,
        no_display: false,
    };
    assert(f.view_parse().keywords =~= Seq::<Seq<char>>::empty());
    assert(f.view_parse().categories =~= Seq::<Seq<char>>::empty());
    let mut i: usize = 0;
    while i < lines.len()
        invariant
            ls == str_views(lines@),
            ls == split_on(content@, '\n'),
            i <= lines@.len(),
            f.view_parse() == parse_lines(ls, i as int),
        decreases lines@.len() - i,
    {
        f.read_line(lines[i].as_str());
        i = i + 1;
    }
    if !(f.entry_type == "Application".to_owned()) || f.name.as_str().is_empty() {
        return None;
    }
    Some(
        DesktopEntry {
            id: id.to_owned(),
            name: f.name,
            generic_name: f.generic_name,
            comment: f.comment,
            command: f.command,
            icon: f.icon,
            icon_path: String::new(),
            keywords: f.keywords,
            categories: f.categories,
            hidden: f.hidden || f.no_display,
        },
    )
}

// ── Command lines ──────────────────────────────────────────────

/// The white-space separated words of `s`.
pub open spec fn ws_words(s: Seq<char>) -> Seq<Seq<char>>
    decreases s.len(),
{
    if s.len() == 0 {
        Seq::empty()
    } else {
        let p = s.drop_last();
        let w = ws_words(p);
        if is_ws(s.last()) {
            w
        } else if p.len() > 0 && !is_ws(p.last()) && w.len() > 0 {
            w.update(w.len() - 1, w.last().push(s.last()))
        } else {
            w.push(seq![s.last()])
        }
    }
}

/// The words that are not field codes (`%f`, `%U`, ...), among the first `k`.
pub open spec fn non_codes(words: Seq<Seq<char>>, k: int) -> Seq<Seq<char>>
    decreases k,
{
    if k <= 0 {
        Seq::empty()
    } else if words[k - 1].len() > 0 && words[k - 1][0] == '%' {
        non_codes(words, k - 1)
    } else {
        non_codes(words, k - 1).push(words[k - 1])
    }
}

/// A command line without its field codes, words joined by single spaces.
pub open spec fn clean_exec_spec(exec: Seq<char>) -> Seq<char> {
    let w = ws_words(exec);
    join_words(non_codes(w, w.len() as int))
}

/// The words of `v[..k]` so far, and whether the last character was part of a word.
proof fn lemma_ws_words_step(s: Seq<char>, k: int)
    requires
        0 < k <= s.len(),
    ensures
        ws_words(s.take(k)) == ({
            let p = s.take(k - 1);
            let w = ws_words(p);
            if is_ws(s[k - 1]) {
                w
            } else if p.len() > 0 && !is_ws(p.last()) && w.len() > 0 {
                w.update(w.len() - 1, w.last().push(s[k - 1]))
            } else {
                w.push(seq![s[k - 1]])
            }
        }),
{
    assert(s.take(k).drop_last() =~= s.take(k - 1));
}

/// Removes the field codes from a command line.
pub fn clean_exec(exec: &str) -> (r: String)
    ensures
        r@ == clean_exec_spec(exec@),
{
    let v = chars_of(exec);
    let mut words: Vec<String> = Vec::new();
    let mut cur = String::new();
    let mut in_word = false;
    let mut i: usize = 0;
    assert(exec@.take(0) =~= Seq::<char>::empty());
    while i < v.len()
        invariant
            v@ == exec@,
            i <= v@.len(),
            in_word == (i > 0 && !is_ws(v@[i - 1])),
            in_word ==> str_views(words@).push(cur@) == ws_words(exec@.take(i as int)) && cur@.len() > 0,
            !in_word ==> str_views(words@) == ws_words(exec@.take(i as int)),
        decreases v@.len() - i,
    {
        proof {
            lemma_ws_words_step(exec@, i + 1);
            assert(exec@.take(i as int).len() > 0 ==> exec@.take(i as int).last() == v@[i - 1]);
        }
        let c = v[i];
        if is_whitespace(c) {
            if in_word {
                let ghost before = str_views(words@);
                let w = cur;
                words.push(w);
                assert(str_views(words@) =~= before.push(w@));
                cur = String::new();
            }
            in_word = false;
        } else {
            if in_word {
                let ghost before = cur@;
                crate::text::push_char(&mut cur, c);
                assert(str_views(words@).push(cur@) =~= ws_words(exec@.take(i as int)).update(
                    ws_words(exec@.take(i as int)).len() - 1,
                    ws_words(exec@.take(i as int)).last().push(c),
                ));
            } else {
                cur = String::new();
                crate::text::push_char(&mut cur, c);
                assert(cur@ =~= seq![c]);
            }
            in_word = true;
        }
        i = i + 1;
    }
    if in_word {
        let ghost before = str_views(words@);
        let w = cur;
        words.push(w);
        assert(str_views(words@) =~= before.push(w@));
    }
    assert(exec@.take(i as int) =~= exec@);
    let ghost ws = str_views(words@);
    let mut out = String::new();
    let mut any = false;
    let mut k: usize = 0;
    while k < words.len()
        invariant
            ws == str_views(words@),
            ws == ws_words(exec@),
            k <= words@.len(),
            any == (non_codes(ws, k as int).len() > 0),
            out@ == join_words(non_codes(ws, k as int)),
        decreases words@.len() - k,
    {
        let wv = chars_of(words[k].as_str());
        if !(wv.len() > 0 && wv[0] == '%') {
            if any {
                out.append(" ");
            }
            out.append(words[k].as_str());
            assert(non_codes(ws, k + 1) == non_codes(ws, k as int).push(ws[k as int]));
            assert(non_codes(ws, k + 1).drop_last() =~= non_codes(ws, k as int));
            assert(out@ =~= join_words(non_codes(ws, k + 1)));
            any = true;
        }
        k = k + 1;
    }
    out
}

// ── Items ──────────────────────────────────────────────────────

/// The tags of an application: `desktop/applications`, and one under it per
/// category, lower-cased.
pub open spec fn app_tags(categories: Seq<Seq<char>>) -> Seq<Seq<char>> {
    seq![normalize_tag_path("desktop/applications"@)] + categories.map_values(
        |c: Seq<char>| normalize_tag_path("desktop/applications/"@ + lowercase(c)),
    )
}

/// The searchable fields of an application: its name, then its generic
/// name, comment, keywords and categories where it has them.
pub open spec fn app_fields(e: DesktopEntryView) -> Seq<Seq<char>> {
    seq![e.name] + (if e.generic_name.len() > 0 { seq![e.generic_name] } else { Seq::empty() })
        + (if e.comment.len() > 0 { seq![e.comment] } else { Seq::empty() }) + (if e.keywords.len() > 0 {
        seq![join_words(e.keywords)]
    } else {
        Seq::empty()
    }) + (if e.categories.len() > 0 {
        seq![join_words(e.categories)]
    } else {
        Seq::empty()
    })
}

/// The launcher item of an application: its resolved icon file if it has
/// one, else its icon name.
pub open spec fn app_item_spec(e: DesktopEntryView) -> ItemView {
    ItemView {
        sub: e.comment,
        icon: if e.icon_path.len() > 0 { e.icon_path } else { e.icon },
        search_fields: app_fields(e),
        tags: app_tags(e.categories),
        ..crate::provider::new_item(e.id, e.name, "applications"@)
    }
}

/// Words joined by single spaces.
fn join_space(words: &Vec<String>) -> (r: String)
    ensures
        r@ == join_words(str_views(words@)),
{
    let ghost ws = str_views(words@);
    let mut out = String::new();
    let mut k: usize = 0;
    assert(ws.take(0) =~= Seq::<Seq<char>>::empty());
    while k < words.len()
        invariant
            ws == str_views(words@),
            k <= words@.len(),
            out@ == join_words(ws.take(k as int)),
        decreases words@.len() - k,
    {
        if k > 0 {
            out.append(" ");
        }
        out.append(words[k].as_str());
        assert(ws.take(k + 1).drop_last() =~= ws.take(k as int));
        assert(out@ =~= join_words(ws.take(k + 1)));
        k = k + 1;
    }
    assert(ws.take(k as int) =~= ws);
    out
}

/// The launcher item of an application.
pub fn app_item(e: &DesktopEntry) -> (r: Item)
    ensures
        r@ == app_item_spec(e@),
{
    let mut fields: Vec<String> = Vec::new();
    fields.push(e.name.clone());
    if !e.generic_name.as_str().is_empty() {
        fields.push(e.generic_name.clone());
    }
    if !e.comment.as_str().is_empty() {
        fields.push(e.comment.clone());
    }
    if e.keywords.len() > 0 {
        fields.push(join_space(&e.keywords));
    }
    if e.categories.len() > 0 {
        fields.push(join_space(&e.categories));
    }
    assert(str_views(fields@) =~= app_fields(e@));
    let mut tags: Vec<String> = Vec::new();
    tags.push("desktop/applications".to_owned());
    let mut i: usize = 0;
    while i < e.categories.len()
        invariant
            i <= e.categories@.len(),
            str_views(tags@) == seq!["desktop/applications"@] + e@.categories.take(i as int).map_values(
                |c: Seq<char>| "desktop/applications/"@ + lowercase(c),
            ),
        decreases e.categories@.len() - i,
    {
        let mut t = "desktop/applications/".to_owned();
        let low = to_lowercase(e.categories[i].as_str());
        t.append(low.as_str());
        let ghost before = str_views(tags@);
        tags.push(t);
        assert(str_views(tags@) =~= before.push("desktop/applications/"@ + lowercase(e@.categories[i as int])));
        assert(e@.categories.take(i + 1).map_values(|c: Seq<char>| "desktop/applications/"@ + lowercase(c))
            =~= e@.categories.take(i as int).map_values(|c: Seq<char>| "desktop/applications/"@ + lowercase(c)).push(
            "desktop/applications/"@ + lowercase(e@.categories[i as int]),
        ));
        i = i + 1;
    }
    assert(e@.categories.take(i as int) =~= e@.categories);
    let icon = if !e.icon_path.as_str().is_empty() {
        e.icon_path.as_str()
    } else {
        e.icon.as_str()
    };
    let mut item = Item::new(e.id.as_str(), e.name.as_str(), "applications");
    item = item.with_sub(e.comment.as_str());
    item = item.with_icon(icon);
    item = item.with_search_fields(fields);
    item.tags = crate::tags::TagSet::from_strings(tags.as_slice());
    assert forall|j: int| 0 <= j < item@.tags.len() implies item@.tags[j] == app_tags(e@.categories)[j] by {
        assert(item@.tags[j] == normalize_tag_path(str_views(tags@)[j]));
        if j > 0 {
            assert(str_views(tags@)[j] == "desktop/applications/"@ + lowercase(e@.categories[j - 1]));
        }
    }
    assert(item@.tags =~= app_tags(e@.categories));
    item
}

/// The positions of the visible entries, among the first `k`, that no
/// earlier visible entry shares a name with.
pub open spec fn unique_visible_upto(all: Seq<DesktopEntry>, k: int) -> Seq<int>
    decreases k,
{
    if k <= 0 {
        Seq::empty()
    } else {
        let p = unique_visible_upto(all, k - 1);
        if !all[k - 1].hidden && !p.map_values(|j: int| all[j].name@).contains(all[k - 1].name@) {
            p.push(k - 1)
        } else {
            p
        }
    }
}

/// The visible entries, the first of each name, in order: hidden entries
/// are dropped, then later entries with a name already kept.
pub fn visible_unique(entries: Vec<DesktopEntry>) -> (r: Vec<DesktopEntry>)
    ensures
        ({
            let pos = unique_visible_upto(entries@, entries@.len() as int);
            r@ == pos.map_values(|j: int| entries@[j])
        }),
{
    let mut entries = entries;
    let ghost all = entries@;
    let mut kept: Vec<DesktopEntry> = Vec::new();
    let mut names: Vec<String> = Vec::new();
    let mut rev: Vec<DesktopEntry> = Vec::new();
    while entries.len() > 0
        invariant
            rev@.len() + entries@.len() == all.len(),
            entries@ == all.take(entries@.len() as int),
            forall|j: int| 0 <= j < rev@.len() ==> #[trigger] rev@[j] == all[all.len() - 1 - j],
        decreases entries@.len(),
    {
        let e = entries.pop().unwrap();
        rev.push(e);
        assert(entries@ =~= all.take(entries@.len() as int));
    }
    let n = rev.len();
    let mut k: usize = 0;
    while rev.len() > 0
        invariant
            n == all.len(),
            k + rev@.len() == n,
            forall|j: int| 0 <= j < rev@.len() ==> #[trigger] rev@[j] == all[all.len() - 1 - j],
            kept@ == unique_visible_upto(all, k as int).map_values(|j: int| all[j]),
            str_views(names@) == unique_visible_upto(all, k as int).map_values(|j: int| all[j].name@),
        decreases rev@.len(),
    {
        let e = rev.pop().unwrap();
        assert(e == all[k as int]);
        let ghost p = unique_visible_upto(all, k as int);
        proof {
            crate::text::lemma_index_of_str(str_views(names@), e.name@);
        }
        if !e.hidden && crate::text::find_str(&names, e.name.as_str()).is_none() {
            let ghost nb = str_views(names@);
            let ghost kb = kept@;
            names.push(e.name.clone());
            assert(str_views(names@) =~= nb.push(e.name@));
            kept.push(e);
            assert(p.push(k as int).map_values(|j: int| all[j]) =~= kb.push(all[k as int]));
            assert(p.push(k as int).map_values(|j: int| all[j].name@) =~= nb.push(all[k as int].name@));
        }
        k = k + 1;
    }
    kept
}

/// The directories `.desktop` files are read from: those of `XDG_DATA_DIRS`
/// (or `/usr/share/applications` and `/usr/local/share/applications` when
/// it is unset), then the user's.
pub open spec fn desktop_dirs_spec(
    xdg_data_dirs: Option<Seq<char>>,
    home: Option<Seq<char>>,
    xdg_data_home: Option<Seq<char>>,
) -> Seq<Seq<char>> {
    (match xdg_data_dirs {
        Some(x) => split_on(x, ':').map_values(|d: Seq<char>| crate::text::joined_path(d, "applications"@)),
        None => seq!["/usr/share/applications"@, "/usr/local/share/applications"@],
    }) + (match home {
        Some(h) => seq![crate::text::joined_path(h, ".local/share/applications"@)],
        None => Seq::empty(),
    }) + (match xdg_data_home {
        Some(d) => seq![crate::text::joined_path(d, "applications"@)],
        None => Seq::empty(),
    })
}

/// The directories `.desktop` files are read from, given the values of
/// `XDG_DATA_DIRS`, `HOME` and `XDG_DATA_HOME` (`None` where unset).
pub fn desktop_dirs(xdg_data_dirs: Option<&str>, home: Option<&str>, xdg_data_home: Option<&str>) -> (r: Vec<String>)
    ensures
        str_views(r@) == desktop_dirs_spec(
            opt_str_view(xdg_data_dirs),
            opt_str_view(home),
            opt_str_view(xdg_data_home),
        ),
{
    let mut dirs: Vec<String> = Vec::new();
    match xdg_data_dirs {
        Some(x) => {
            let parts = crate::text::split_at_char(x, ':');
            let ghost ps = str_views(parts@);
            let mut i: usize = 0;
            while i < parts.len()
                invariant
                    ps == str_views(parts@),
                    i <= parts@.len(),
                    str_views(dirs@) == ps.take(i as int).map_values(
                        |d: Seq<char>| crate::text::joined_path(d, "applications"@),
                    ),
                decreases parts@.len() - i,
            {
                let ghost before = str_views(dirs@);
                let d = crate::text::join_path(parts[i].as_str(), "applications");
                dirs.push(d);
                assert(str_views(dirs@) =~= before.push(d@));
                assert(ps.take(i + 1).map_values(|d: Seq<char>| crate::text::joined_path(d, "applications"@))
                    =~= ps.take(i as int).map_values(|d: Seq<char>| crate::text::joined_path(d, "applications"@)).push(d@));
                i = i + 1;
            }
            assert(ps.take(i as int) =~= ps);
        },
        None => {
            dirs.push("/usr/share/applications".to_owned());
            dirs.push("/usr/local/share/applications".to_owned());
        },
    }
    match home {
        Some(h) => {
            dirs.push(crate::text::join_path(h, ".local/share/applications"));
        },
        None => {},
    }
    match xdg_data_home {
        Some(d) => {
            dirs.push(crate::text::join_path(d, "applications"));
        },
        None => {},
    }
    assert(str_views(dirs@) =~= desktop_dirs_spec(
        opt_str_view(xdg_data_dirs),
        opt_str_view(home),
        opt_str_view(xdg_data_home),
    ));
    dirs
}

} // verus!
