//! Icon resolution: icon identifiers to file paths.
//!
//! An identifier is looked up in a custom registry, taken as an absolute
//! path, or searched for in the XDG icon theme directories; results are
//! cached.

use vstd::prelude::*;

use crate::keyed::KeyedVec;
use crate::text::{
    concat_map, concat_strs, join_path, joined_path, opt_str_view, opt_view, split_at_char,
    split_on, str_views,
};

verus! {

/// Whether a file or directory exists at `path`, by `std::path::Path::exists`.
///
/// Nothing is stated of the result: it depends on the file system.
#[verifier::external_body]
fn path_exists(path: &str) -> (r: bool) {
    std::path::Path::new(path).exists()
}

/// Icon sizes searched, largest first.
pub open spec fn icon_sizes() -> Seq<Seq<char>> {
    seq!["256x256"@, "128x128"@, "96x96"@, "64x64"@, "48x48"@, "32x32"@, "scalable"@]
}

/// Icon categories searched.
pub open spec fn icon_categories() -> Seq<Seq<char>> {
    seq!["apps"@, "applications"@, "devices"@, "mimetypes"@, "actions"@, "categories"@]
}

/// Icon file extensions searched.
pub open spec fn icon_exts() -> Seq<Seq<char>> {
    seq!["svg"@, "png"@, "xpm"@]
}

/// Icon themes searched: hicolor, Adwaita, then breeze.
pub open spec fn icon_themes() -> Seq<Seq<char>> {
    seq!["hicolor"@, "Adwaita"@, "breeze"@]
}

/// `<base>/<name>.<ext>` for each extension.
pub open spec fn ext_paths(base: Seq<char>, name: Seq<char>) -> Seq<Seq<char>> {
    icon_exts().map_values(|e: Seq<char>| joined_path(base, name + "."@ + e))
}

pub open spec fn category_step(base: Seq<char>, name: Seq<char>) -> spec_fn(Seq<char>) -> Seq<Seq<char>> {
    |c: Seq<char>| ext_paths(joined_path(base, c), name)
}

/// The paths under `<base>/<category>` for each category.
pub open spec fn category_paths(base: Seq<char>, name: Seq<char>) -> Seq<Seq<char>> {
    concat_map(icon_categories(), category_step(base, name))
}

pub open spec fn size_step(base: Seq<char>, name: Seq<char>) -> spec_fn(Seq<char>) -> Seq<Seq<char>> {
    |s: Seq<char>| category_paths(joined_path(base, s), name)
}

/// The paths under `<base>/<size>` for each size.
pub open spec fn size_paths(base: Seq<char>, name: Seq<char>) -> Seq<Seq<char>> {
    concat_map(icon_sizes(), size_step(base, name))
}

pub open spec fn theme_step(dir: Seq<char>, name: Seq<char>) -> spec_fn(Seq<char>) -> Seq<Seq<char>> {
    |t: Seq<char>| size_paths(joined_path(dir, t), name)
}

/// The paths tried in one icon directory: each theme, then the directory itself.
pub open spec fn dir_paths(dir: Seq<char>, name: Seq<char>) -> Seq<Seq<char>> {
    concat_map(icon_themes(), theme_step(dir, name)) + ext_paths(dir, name)
}

pub open spec fn dir_step(name: Seq<char>) -> spec_fn(Seq<char>) -> Seq<Seq<char>> {
    |d: Seq<char>| dir_paths(d, name)
}

/// Every path tried for an icon name, in order: each search directory, then
/// `/usr/share/pixmaps`.
pub open spec fn theme_candidates(dirs: Seq<Seq<char>>, name: Seq<char>) -> Seq<Seq<char>> {
    concat_map(dirs, dir_step(name)) + ext_paths("/usr/share/pixmaps"@, name)
}

/// The standard icon directories: the user's, then those of `XDG_DATA_DIRS`
/// (or `/usr/share/icons` and `/usr/local/share/icons` when it is unset).
pub open spec fn icon_dirs(home: Option<Seq<char>>, xdg_data_dirs: Option<Seq<char>>) -> Seq<Seq<char>> {
    (match home {
        Some(h) => seq![joined_path(h, ".local/share/icons"@), joined_path(h, ".icons"@)],
        None => Seq::empty(),
    }) + match xdg_data_dirs {
        Some(x) => split_on(x, ':').map_values(|d: Seq<char>| joined_path(d, "icons"@)),
        None => seq!["/usr/share/icons"@, "/usr/local/share/icons"@],
    }
}

/// The content of an icon resolver.
pub struct IconResolverView {
    /// Resolved identifiers and what they resolved to.
    pub cache: Map<Seq<char>, Option<Seq<char>>>,
    /// Cached identifiers, in the order they were resolved.
    pub cache_order: Seq<Seq<char>>,
    /// Custom icons: name to path.
    pub custom: Map<Seq<char>, Seq<char>>,
    /// Icon theme directories to search.
    pub search_dirs: Seq<Seq<char>>,
}

/// Every path tried for an identifier, in order: its custom path if one is
/// registered, the identifier itself if it is an absolute path, then the
/// theme candidates.
pub open spec fn icon_candidates(v: IconResolverView, icon: Seq<char>) -> Seq<Seq<char>> {
    (if v.custom.contains_key(icon) {
        seq![v.custom[icon]]
    } else {
        Seq::empty()
    }) + (if icon.len() > 0 && icon[0] == '/' {
        seq![icon]
    } else {
        Seq::empty()
    }) + theme_candidates(v.search_dirs, icon)
}

/// The first of `cands`, from index `i` on, whose answer in `exists` is
/// `true`; an index with no answer counts as not existing.
pub open spec fn first_existing_from(cands: Seq<Seq<char>>, exists: Seq<bool>, i: int) -> Option<Seq<char>>
    decreases cands.len() - i,
{
    if i < 0 || i >= cands.len() || i >= exists.len() {
        None
    } else if exists[i] {
        Some(cands[i])
    } else {
        first_existing_from(cands, exists, i + 1)
    }
}

/// The first of `cands` whose answer in `exists` is `true`.
pub open spec fn first_existing(cands: Seq<Seq<char>>, exists: Seq<bool>) -> Option<Seq<char>> {
    first_existing_from(cands, exists, 0)
}

/// Number of cached identifiers among `keys` that resolved to a path.
pub open spec fn count_found(cache: Map<Seq<char>, Option<Seq<char>>>, keys: Seq<Seq<char>>) -> nat
    decreases keys.len(),
{
    if keys.len() == 0 {
        0
    } else {
        count_found(cache, keys.drop_last()) + if cache[keys.last()] is Some {
            1nat
        } else {
            0nat
        }
    }
}

/// Icon resolver with caching.
pub struct IconResolver {
    cache: KeyedVec<Option<String>>,
    custom: KeyedVec<String>,
    search_dirs: Vec<String>,
}

impl View for IconResolver {
    type V = IconResolverView;

    closed spec fn view(&self) -> IconResolverView {
        IconResolverView {
            cache: self.cache.map().map_values(|o: Option<String>| opt_view(o)),
            cache_order: self.cache.key_seq(),
            custom: self.custom.map().map_values(|s: String| s@),
            search_dirs: str_views(self.search_dirs@),
        }
    }
}

impl Default for IconResolver {
    fn default() -> (r: Self)
        ensures
            r.wf(),
            r@.cache == Map::<Seq<char>, Option<Seq<char>>>::empty(),
            r@.custom == Map::<Seq<char>, Seq<char>>::empty(),
            r@.search_dirs == Seq::<Seq<char>>::empty(),
    {
        let r = IconResolver { cache: KeyedVec::new(), custom: KeyedVec::new(), search_dirs: Vec::new() };
        assert(r@.cache =~= Map::<Seq<char>, Option<Seq<char>>>::empty());
        assert(r@.custom =~= Map::<Seq<char>, Seq<char>>::empty());
        assert(r@.search_dirs =~= Seq::<Seq<char>>::empty());
        r
    }
}

/// `<base>/<name>.<ext>` for each extension.
fn ext_paths_of(base: &str, name: &str) -> (r: Vec<String>)
    ensures
        str_views(r@) == ext_paths(base@, name@),
{
    let exts: Vec<&str> = vec!["svg", "png", "xpm"];
    let ghost es = exts@.map_values(|e: &str| e@);
    assert(es =~= icon_exts());
    let mut r: Vec<String> = Vec::new();
    let mut i: usize = 0;
    while i < exts.len()
        invariant
            es == exts@.map_values(|e: &str| e@),
            es == icon_exts(),
            i <= exts@.len(),
            str_views(r@) == ext_paths(base@, name@).take(i as int),
        decreases exts@.len() - i,
    {
        let file = concat_strs(&[name, ".", exts[i]]);
        proof {
            reveal_with_fuel(Seq::fold_left, 4);
        }
        assert(file@ =~= name@ + "."@ + es[i as int]);
        let p = join_path(base, file.as_str());
        let ghost before = r@;
        r.push(p);
        assert(str_views(r@) =~= str_views(before).push(p@));
        assert(ext_paths(base@, name@).take(i + 1) =~= ext_paths(base@, name@).take(i as int).push(p@));
        i = i + 1;
    }
    assert(ext_paths(base@, name@).take(i as int) =~= ext_paths(base@, name@));
    r
}

/// The paths under `<base>/<category>` for each category.
fn category_paths_of(base: &str, name: &str) -> (r: Vec<String>)
    ensures
        str_views(r@) == category_paths(base@, name@),
{
    let cats: Vec<&str> = vec!["apps", "applications", "devices", "mimetypes", "actions", "categories"];
    let ghost cs = cats@.map_values(|e: &str| e@);
    assert(cs =~= icon_categories());
    let ghost f = category_step(base@, name@);
    let mut r: Vec<String> = Vec::new();
    let mut i: usize = 0;
    assert(cs.take(0) =~= Seq::<Seq<char>>::empty());
    while i < cats.len()
        invariant
            cs == cats@.map_values(|e: &str| e@),
            cs == icon_categories(),
            f == category_step(base@, name@),
            i <= cats@.len(),
            str_views(r@) == concat_map(cs.take(i as int), f),
        decreases cats@.len() - i,
    {
        let b = join_path(base, cats[i]);
        let mut more = ext_paths_of(b.as_str(), name);
        let ghost before = str_views(r@);
        let ghost added = str_views(more@);
        r.append(&mut more);
        assert(str_views(r@) =~= before + added);
        assert(cs.take(i + 1).drop_last() =~= cs.take(i as int));
        i = i + 1;
    }
    assert(cs.take(i as int) =~= cs);
    r
}

/// The paths under `<base>/<size>` for each size.
fn size_paths_of(base: &str, name: &str) -> (r: Vec<String>)
    ensures
        str_views(r@) == size_paths(base@, name@),
{
    let sizes: Vec<&str> = vec!["256x256", "128x128", "96x96", "64x64", "48x48", "32x32", "scalable"];
    let ghost ss = sizes@.map_values(|e: &str| e@);
    assert(ss =~= icon_sizes());
    let ghost f = size_step(base@, name@);
    let mut r: Vec<String> = Vec::new();
    let mut i: usize = 0;
    assert(ss.take(0) =~= Seq::<Seq<char>>::empty());
    while i < sizes.len()
        invariant
            ss == sizes@.map_values(|e: &str| e@),
            ss == icon_sizes(),
            f == size_step(base@, name@),
            i <= sizes@.len(),
            str_views(r@) == concat_map(ss.take(i as int), f),
        decreases sizes@.len() - i,
    {
        let b = join_path(base, sizes[i]);
        let mut more = category_paths_of(b.as_str(), name);
        let ghost before = str_views(r@);
        let ghost added = str_views(more@);
        r.append(&mut more);
        assert(str_views(r@) =~= before + added);
        assert(ss.take(i + 1).drop_last() =~= ss.take(i as int));
        i = i + 1;
    }
    assert(ss.take(i as int) =~= ss);
    r
}

/// The paths tried in one icon directory.
fn dir_paths_of(dir: &str, name: &str) -> (r: Vec<String>)
    ensures
        str_views(r@) == dir_paths(dir@, name@),
{
    let themes: Vec<&str> = vec!["hicolor", "Adwaita", "breeze"];
    let ghost ts = themes@.map_values(|e: &str| e@);
    assert(ts =~= icon_themes());
    let ghost f = theme_step(dir@, name@);
    let mut r: Vec<String> = Vec::new();
    let mut i: usize = 0;
    assert(ts.take(0) =~= Seq::<Seq<char>>::empty());
    while i < themes.len()
        invariant
            ts == themes@.map_values(|e: &str| e@),
            ts == icon_themes(),
            f == theme_step(dir@, name@),
            i <= themes@.len(),
            str_views(r@) == concat_map(ts.take(i as int), f),
        decreases themes@.len() - i,
    {
        let b = join_path(dir, themes[i]);
        let mut more = size_paths_of(b.as_str(), name);
        let ghost before = str_views(r@);
        let ghost added = str_views(more@);
        r.append(&mut more);
        assert(str_views(r@) =~= before + added);
        assert(ts.take(i + 1).drop_last() =~= ts.take(i as int));
        i = i + 1;
    }
    assert(ts.take(i as int) =~= ts);
    let mut flat = ext_paths_of(dir, name);
    let ghost before = str_views(r@);
    let ghost added = str_views(flat@);
    r.append(&mut flat);
    assert(str_views(r@) =~= before + added);
    r
}

/// The standard icon directories, given the values of `HOME` and
/// `XDG_DATA_DIRS` (`None` where unset).
pub fn xdg_icon_dirs(home: Option<&str>, xdg_data_dirs: Option<&str>) -> (r: Vec<String>)
    ensures
        str_views(r@) == icon_dirs(opt_str_view(home), opt_str_view(xdg_data_dirs)),
{
    let mut dirs: Vec<String> = Vec::new();
    match home {
        Some(h) => {
            dirs.push(join_path(h, ".local/share/icons"));
            dirs.push(join_path(h, ".icons"));
        },
        None => {},
    }
    let ghost first = str_views(dirs@);
    match xdg_data_dirs {
        Some(x) => {
            let parts = split_at_char(x, ':');
            let ghost ps = str_views(parts@);
            let mut i: usize = 0;
            while i < parts.len()
                invariant
                    ps == str_views(parts@),
                    i <= parts@.len(),
                    str_views(dirs@) == first + ps.take(i as int).map_values(
                        |d: Seq<char>| joined_path(d, "icons"@),
                    ),
                decreases parts@.len() - i,
            {
                let ghost before = str_views(dirs@);
                let d = join_path(parts[i].as_str(), "icons");
                dirs.push(d);
                assert(str_views(dirs@) =~= before.push(d@));
                assert(ps.take(i + 1).map_values(|d: Seq<char>| joined_path(d, "icons"@))
                    =~= ps.take(i as int).map_values(|d: Seq<char>| joined_path(d, "icons"@)).push(
                    d@,
                ));
                i = i + 1;
            }
            assert(ps.take(i as int) =~= ps);
        },
        None => {
            let ghost before = str_views(dirs@);
            dirs.push("/usr/share/icons".to_owned());
            dirs.push("/usr/local/share/icons".to_owned());
            assert(str_views(dirs@) =~= before + seq!["/usr/share/icons"@, "/usr/local/share/icons"@]);
        },
    }
    assert(str_views(dirs@) =~= icon_dirs(opt_str_view(home), opt_str_view(xdg_data_dirs)));
    dirs
}

/// The first of `cands` whose answer in `exists` is `true` (a missing
/// answer counts as no).
pub fn pick_icon(cands: &[String], exists: &[bool]) -> (r: Option<String>)
    ensures
        opt_view(r) == first_existing(str_views(cands@), exists@),
{
    let ghost c = str_views(cands@);
    let mut i: usize = 0;
    while i < cands.len() && i < exists.len()
        invariant
            c == str_views(cands@),
            i <= cands@.len(),
            first_existing(c, exists@) == first_existing_from(c, exists@, i as int),
        decreases cands@.len() - i,
    {
        if exists[i] {
            return Some(cands[i].clone());
        }
        i = i + 1;
    }
    None
}

/// Asks the file system about each of `cands` in turn, up to the first that
/// exists: `r[i]` is the answer for `cands[i]`.
fn probe(cands: &[String]) -> (r: Vec<bool>)
    ensures
        r@.len() <= cands@.len(),
{
    let mut r: Vec<bool> = Vec::new();
    let mut i: usize = 0;
    while i < cands.len()
        invariant
            i <= cands@.len(),
            r@.len() == i,
        decreases cands@.len() - i,
    {
        let found = path_exists(cands[i].as_str());
        r.push(found);
        if found {
            return r;
        }
        i = i + 1;
    }
    r
}

impl IconResolver {
    /// The resolver's invariant.
    pub closed spec fn wf(&self) -> bool {
        self.cache.wf() && self.custom.wf()
    }

    /// A resolver searching the standard icon directories, given the values
    /// of `HOME` and `XDG_DATA_DIRS` (`None` where unset).
    pub fn new(home: Option<&str>, xdg_data_dirs: Option<&str>) -> (r: Self)
        ensures
            r.wf(),
            r@.cache == Map::<Seq<char>, Option<Seq<char>>>::empty(),
            r@.custom == Map::<Seq<char>, Seq<char>>::empty(),
            r@.search_dirs == icon_dirs(opt_str_view(home), opt_str_view(xdg_data_dirs)),
    {
        let mut r = IconResolver::default();
        r.search_dirs = xdg_icon_dirs(home, xdg_data_dirs);
        r
    }

    /// Registers a custom icon: name to path.
    pub fn register(&mut self, name: &str, path: &str)
        requires
            old(self).wf(),
        ensures
            final(self).wf(),
            final(self)@ == (IconResolverView { custom: old(self)@.custom.insert(name@, path@), ..old(self)@ }),
    {
        let ghost v = self@;
        self.custom.insert(name.to_owned(), path.to_owned());
        assert(self@.custom =~= v.custom.insert(name@, path@));
    }

    /// Every path tried for an icon name in the theme directories, in order.
    pub fn theme_candidates(&self, name: &str) -> (r: Vec<String>)
        ensures
            str_views(r@) == theme_candidates(self@.search_dirs, name@),
    {
        let ghost ds = str_views(self.search_dirs@);
        let ghost f = dir_step(name@);
        let mut r: Vec<String> = Vec::new();
        let mut i: usize = 0;
        assert(ds.take(0) =~= Seq::<Seq<char>>::empty());
        while i < self.search_dirs.len()
            invariant
                ds == str_views(self.search_dirs@),
                f == dir_step(name@),
                i <= ds.len(),
                str_views(r@) == concat_map(ds.take(i as int), f),
            decreases ds.len() - i,
        {
            let mut more = dir_paths_of(self.search_dirs[i].as_str(), name);
            let ghost before = str_views(r@);
            let ghost added = str_views(more@);
            r.append(&mut more);
            assert(str_views(r@) =~= before + added);
            assert(ds.take(i + 1).drop_last() =~= ds.take(i as int));
            i = i + 1;
        }
        assert(ds.take(i as int) =~= ds);
        let mut pix = ext_paths_of("/usr/share/pixmaps", name);
        let ghost before = str_views(r@);
        let ghost added = str_views(pix@);
        r.append(&mut pix);
        assert(str_views(r@) =~= before + added);
        r
    }

    /// Every path tried for an identifier, in the order they are tried.
    pub fn candidates(&self, icon: &str) -> (r: Vec<String>)
        requires
            self.wf(),
        ensures
            str_views(r@) == icon_candidates(self@, icon@),
    {
        let mut r: Vec<String> = Vec::new();
        match self.custom.get(icon) {
            Some(path) => {
                r.push(path.clone());
            },
            None => {},
        }
        let ghost first = str_views(r@);
        let cs = crate::text::chars_of(icon);
        if cs.len() > 0 && cs[0] == '/' {
            r.push(icon.to_owned());
        }
        let ghost second = str_views(r@);
        let mut theme = self.theme_candidates(icon);
        let ghost added = str_views(theme@);
        r.append(&mut theme);
        assert(str_views(r@) =~= second + added);
        assert(str_views(r@) =~= icon_candidates(self@, icon@));
        r
    }

    /// Resolves an identifier as `resolve` does, with `exists[i]` the answer
    /// to whether the `i`-th of its candidates exists (a missing answer counts
    /// as no): nothing for an empty identifier, the cached result for one
    /// resolved before, and otherwise the first existing candidate, which is
    /// then cached.
    pub fn resolve_with(&mut self, icon: &str, exists: &[bool]) -> (r: Option<String>)
        requires
            old(self).wf(),
        ensures
            final(self).wf(),
            icon@.len() == 0 ==> r is None && final(self)@ == old(self)@,
            icon@.len() > 0 && old(self)@.cache.contains_key(icon@) ==> opt_view(r)
                == old(self)@.cache[icon@] && final(self)@ == old(self)@,
            icon@.len() > 0 && !old(self)@.cache.contains_key(icon@) ==> opt_view(r)
                == first_existing(icon_candidates(old(self)@, icon@), exists@)
                && final(self)@ == (IconResolverView {
                cache: old(self)@.cache.insert(icon@, opt_view(r)),
                cache_order: old(self)@.cache_order.push(icon@),
                ..old(self)@
            }),
    {
        if icon.is_empty() {
            return None;
        }
        match self.cache.get(icon) {
            Some(cached) => {
                return match cached {
                    Some(p) => Some(p.clone()),
                    None => None,
                };
            },
            None => {},
        }
        let cands = self.candidates(icon);
        let result = pick_icon(cands.as_slice(), exists);
        self.remember(icon, &result);
        result
    }

    /// Caches the result for an identifier not cached yet.
    fn remember(&mut self, icon: &str, result: &Option<String>)
        requires
            old(self).wf(),
            !old(self)@.cache.contains_key(icon@),
        ensures
            final(self).wf(),
            final(self)@ == (IconResolverView {
                cache: old(self)@.cache.insert(icon@, opt_view(*result)),
                cache_order: old(self)@.cache_order.push(icon@),
                ..old(self)@
            }),
    {
        let ghost v = self@;
        let stored = match result {
            Some(p) => Some(p.clone()),
            None => None,
        };
        assert(opt_view(stored) == opt_view(*result));
        self.cache.push_new(icon.to_owned(), stored);
        assert(self@.cache =~= v.cache.insert(icon@, opt_view(*result)));
    }

    /// Resolves an icon identifier to a file path: nothing for an empty
    /// identifier, the cached result for one resolved before, and otherwise
    /// the first of its candidates (its custom path, itself as an absolute
    /// path, then the icon theme files) that exists on disk; the result is
    /// cached.
    ///
    /// Which files exist is asked of the file system, so for an identifier
    /// not cached the result is stated as the first existing candidate under
    /// some answers to those questions; `resolve_with` states it for given
    /// answers.
    pub fn resolve(&mut self, icon: &str) -> (r: Option<String>)
        requires
            old(self).wf(),
        ensures
            final(self).wf(),
            icon@.len() == 0 ==> r is None && final(self)@ == old(self)@,
            icon@.len() > 0 && old(self)@.cache.contains_key(icon@) ==> opt_view(r)
                == old(self)@.cache[icon@] && final(self)@ == old(self)@,
            icon@.len() > 0 && !old(self)@.cache.contains_key(icon@) ==> (exists|flags: Seq<bool>|
                opt_view(r) == #[trigger] first_existing(icon_candidates(old(self)@, icon@), flags))
                && final(self)@ == (IconResolverView {
                cache: old(self)@.cache.insert(icon@, opt_view(r)),
                cache_order: old(self)@.cache_order.push(icon@),
                ..old(self)@
            }),
    {
        if icon.is_empty() {
            return None;
        }
        match self.cache.get(icon) {
            Some(cached) => {
                return match cached {
                    Some(p) => Some(p.clone()),
                    None => None,
                };
            },
            None => {},
        }
        let cands = self.candidates(icon);
        let flags = probe(cands.as_slice());
        let result = pick_icon(cands.as_slice(), flags.as_slice());
        assert(opt_view(result) == first_existing(icon_candidates(self@, icon@), flags@));
        self.remember(icon, &result);
        result
    }

    /// Cache statistics: (identifiers that resolved to a path, identifiers cached).
    pub fn cache_stats(&self) -> (r: (usize, usize))
        requires
            self.wf(),
        ensures
            r.1 == self@.cache_order.len(),
            r.0 == count_found(self@.cache, self@.cache_order),
    {
        proof {
            self.cache.lemma_wf();
        }
        let n = self.cache.len();
        let mut found: usize = 0;
        let mut i: usize = 0;
        while i < n
            invariant
                self.wf(),
                n == self@.cache_order.len(),
                i <= n,
                found <= i,
                found == count_found(self@.cache, self@.cache_order.take(i as int)),
            decreases n - i,
        {
            proof {
                self.cache.lemma_wf();
            }
            let o = self.cache.value_at(i);
            assert(self@.cache_order.take(i + 1).drop_last() =~= self@.cache_order.take(i as int));
            assert(self@.cache[self@.cache_order[i as int]] == opt_view(*o));
            if o.is_some() {
                found = found + 1;
            }
            i = i + 1;
        }
        assert(self@.cache_order.take(i as int) =~= self@.cache_order);
        (found, n)
    }
}

} // verus!
