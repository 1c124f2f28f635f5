//! Properties the library keeps across calls, stated over the same spec
//! functions the operations' contracts use.

use vstd::prelude::*;

use crate::tags::{
    add_ancestors, add_info_if_absent, filter_pairs, implicit_info, in_subtree, key_keep,
    lemma_last_index_of_bounds, lookup_alias, lookup_info, put_info, register_spec, remove_spec,
    tag_ancestors, tag_is_under, tag_parent, tags_match, update_info, without, merge_spec,
    rename_spec, lemma_remove_no_duplicates, registry_wf, infos_where, TagInfoView,
    TagRegistryView,
};
use crate::filter::{
    empty_filter, filter_passes, preset_key, toggled_exclude, toggled_include, FilterPresetView,
    FilterStateView,
};
use crate::extension::{
    command_items, extension_items, extension_items_upto, pref_key, register_tag_def,
    register_tag_defs, CommandDef, ExtTagDef, LoadedExtension,
};
use crate::history::{days_since, entry_of, entry_score, recorded, HistoryEntry, HistoryView, DAY_MILLIS};
use crate::icons::IconResolverView;
use crate::tags::normalize_tag_path;
use crate::matching::{exact_hit_from, find_bytes, lemma_exact_hit_from, lemma_find_bytes_from};
use crate::text::lowercase;
use vstd::utf8::encode_utf8;
use crate::launcher::{nav_key, SessionView};
use crate::sidebar::{lemma_name_slot, name_slot, sort_by_name};
use crate::ui::{highlight_spec, highlight_upto, lemma_highlight_upto_bounds, LauncherKey, TextSegmentView};
use crate::userdata::{item_or_default, merged_item, put_item, seen_at, with_tag, ItemDataView, UserDataView};
use vstd::arithmetic::div_mod::{lemma_mod_pos_bound, lemma_mod_self_0, lemma_small_mod};
use crate::text::{
    lemma_lex_asymmetric, lemma_lex_total, lemma_lex_transitive, lex_lt,
    drop_keyed, first_keyed, index_of_str, last_index_of, lemma_first_keyed,
    lemma_first_keyed_bounds, lemma_index_of_str, str_key,
};

verus! {

// ── Tags ───────────────────────────────────────────────────────

/// Every tag is under itself.
pub proof fn law_is_under_reflexive(a: Seq<char>)
    ensures
        tag_is_under(a, a),
{
}

/// Being under is transitive: below a tag that is below `c` is below `c`.
pub proof fn law_is_under_transitive(a: Seq<char>, b: Seq<char>, c: Seq<char>)
    requires
        tag_is_under(a, b),
        tag_is_under(b, c),
    ensures
        tag_is_under(a, c),
{
    if a != b && b != c {
        assert(a.take(c.len() as int) =~= b.take(c.len() as int));
        assert(a[c.len() as int] == b[c.len() as int]);
    }
}

/// A tag lies under its parent, which is shorter.
pub proof fn law_under_parent(t: Seq<char>)
    ensures
        tag_parent(t) matches Some(p) ==> tag_is_under(t, p) && p.len() < t.len(),
{
    lemma_last_index_of_bounds(t, '/');
    if let Some(p) = tag_parent(t) {
        let i = last_index_of(t, '/');
        assert(t.take(p.len() as int) =~= p);
    }
}

/// A tag lies under each of its ancestors, all distinct from it: an item
/// tagged `audio/effects/reverb` matches `audio/effects` and `audio`.
pub proof fn law_under_ancestors(t: Seq<char>)
    ensures
        forall|i: int|
            0 <= i < tag_ancestors(t).len() ==> tag_is_under(t, #[trigger] tag_ancestors(t)[i])
                && tag_ancestors(t)[i].len() < t.len(),
    decreases t.len(),
{
    law_under_parent(t);
    lemma_last_index_of_bounds(t, '/');
    if let Some(p) = tag_parent(t) {
        law_under_ancestors(p);
        assert forall|i: int|
            0 <= i < tag_ancestors(t).len() implies tag_is_under(t, #[trigger] tag_ancestors(t)[i])
                && tag_ancestors(t)[i].len() < t.len() by {
            assert(tag_ancestors(t) == seq![p] + tag_ancestors(p));
            if i > 0 {
                assert(tag_ancestors(t)[i] == tag_ancestors(p)[i - 1]);
                law_is_under_transitive(t, p, tag_ancestors(p)[i - 1]);
            }
        }
    }
}

/// A tag set matching a tag also matches each of the tag's ancestors.
pub proof fn law_match_inherited(tags: Seq<Seq<char>>, f: Seq<char>)
    requires
        tags_match(tags, f),
    ensures
        forall|i: int| 0 <= i < tag_ancestors(f).len() ==> tags_match(tags, #[trigger] tag_ancestors(f)[i]),
{
    law_under_ancestors(f);
    assert forall|i: int| 0 <= i < tag_ancestors(f).len() implies tags_match(tags, #[trigger] tag_ancestors(f)[i]) by {
        let j = choose|j: int| 0 <= j < tags.len() && tag_is_under(tags[j], f);
        law_is_under_transitive(tags[j], f, tag_ancestors(f)[i]);
    }
}

proof fn lemma_lookup_after_push(keys: Seq<Seq<char>>, infos: Seq<TagInfoView>, a: Seq<char>, info: TagInfoView, m: TagRegistryView)
    requires
        keys == m.keys,
        infos == m.infos,
        keys.len() == infos.len(),
    ensures
        lookup_info(TagRegistryView { keys: keys.push(a), infos: infos.push(info), ..m }, a) == Some(info),
        forall|k: Seq<char>| k != a ==> #[trigger] lookup_info(TagRegistryView { keys: keys.push(a), infos: infos.push(info), ..m }, k) == lookup_info(m, k),
{
    assert(keys.push(a).drop_last() =~= keys);
    assert forall|k: Seq<char>| k != a implies #[trigger] lookup_info(TagRegistryView { keys: keys.push(a), infos: infos.push(info), ..m }, k) == lookup_info(m, k) by {
        lemma_index_of_str(keys, k);
        let i = index_of_str(keys, k);
        if i >= 0 {
            assert(infos.push(info)[i] == infos[i]);
        }
    }
}

/// Registering the missing ones among `ancs` keeps what was registered and
/// registers each of them.
pub proof fn lemma_add_ancestors(m: TagRegistryView, ancs: Seq<Seq<char>>)
    requires
        m.keys.len() == m.infos.len(),
    ensures
        forall|k: Seq<char>| #[trigger] lookup_info(m, k) is Some ==> lookup_info(add_ancestors(m, ancs), k) == lookup_info(m, k),
        forall|i: int| 0 <= i < ancs.len() ==> #[trigger] lookup_info(add_ancestors(m, ancs), ancs[i]) is Some,
        add_ancestors(m, ancs).keys.len() == add_ancestors(m, ancs).infos.len(),
    decreases ancs.len(),
{
    if ancs.len() > 0 {
        let a = ancs[0];
        let m1 = add_info_if_absent(m, a, implicit_info(a));
        lemma_index_of_str(m.keys, a);
        if index_of_str(m.keys, a) < 0 {
            lemma_lookup_after_push(m.keys, m.infos, a, implicit_info(a), m);
        }
        assert(lookup_info(m1, a) is Some);
        assert forall|k: Seq<char>| #[trigger] lookup_info(m, k) is Some implies lookup_info(m1, k) == lookup_info(m, k) by {
            if index_of_str(m.keys, a) < 0 {
                assert(k != a);
            }
        }
        lemma_add_ancestors(m1, ancs.drop_first());
        assert forall|i: int| 0 <= i < ancs.len() implies #[trigger] lookup_info(add_ancestors(m, ancs), ancs[i]) is Some by {
            if i > 0 {
                assert(ancs[i] == ancs.drop_first()[i - 1]);
            }
        }
    }
}

/// Registering a tag stores its metadata under its path and registers every
/// ancestor that was not registered.
pub proof fn law_register_registers(m: TagRegistryView, t: Seq<char>, name: Seq<char>, desc: Seq<char>)
    requires
        crate::tags::registry_wf(m),
    ensures
        lookup_info(register_spec(m, t, name, desc), t) == Some(
            TagInfoView { tag: t, display_name: name, description: desc, icon: Seq::empty(), color: Seq::empty() },
        ),
        forall|i: int| 0 <= i < tag_ancestors(t).len() ==> #[trigger] lookup_info(register_spec(m, t, name, desc), tag_ancestors(t)[i]) is Some,
{
    let info = TagInfoView { tag: t, display_name: name, description: desc, icon: Seq::empty(), color: Seq::empty() };
    let m1 = put_info(m, t, info);
    lemma_index_of_str(m.keys, t);
    let i = index_of_str(m.keys, t);
    if i >= 0 {
        assert(lookup_info(m1, t) == Some(info));
    } else {
        lemma_lookup_after_push(m.keys, m.infos, t, info, m);
    }
    lemma_add_ancestors(m1, tag_ancestors(t));
}

/// A tag is under `b` exactly when it is `b` or has `b` among its
/// ancestors: `audio/effects` is under `audio`, `audiobook` is not.
pub proof fn law_is_under_iff_ancestor(a: Seq<char>, b: Seq<char>)
    ensures
        tag_is_under(a, b) <==> (a == b || tag_ancestors(a).contains(b)),
    decreases a.len(),
{
    law_under_ancestors(a);
    if tag_ancestors(a).contains(b) {
        let i = choose|i: int| 0 <= i < tag_ancestors(a).len() && tag_ancestors(a)[i] == b;
        assert(tag_is_under(a, tag_ancestors(a)[i]));
    }
    if tag_is_under(a, b) && a != b {
        lemma_last_index_of_bounds(a, '/');
        let l = last_index_of(a, '/');
        assert(a[b.len() as int] == '/');
        assert(l >= b.len());
        let p = a.take(l);
        assert(tag_parent(a) == Some(p));
        assert(tag_ancestors(a) == seq![p] + tag_ancestors(p));
        if l == b.len() {
            assert(p =~= b);
            assert(tag_ancestors(a)[0] == b);
        } else {
            assert(p.take(b.len() as int) =~= b);
            assert(p[b.len() as int] == a[b.len() as int]);
            assert(tag_is_under(p, b));
            law_is_under_iff_ancestor(p, b);
            let j = choose|j: int| 0 <= j < tag_ancestors(p).len() && tag_ancestors(p)[j] == b;
            assert(tag_ancestors(a)[j + 1] == b);
        }
    }
}

/// What registering the missing ones among `ancs` does to a path `k`: a
/// registered path keeps its metadata, a missing one among `ancs` gets its
/// leaf as name, and any other path stays unregistered; aliases are kept.
pub proof fn lemma_add_ancestors_frame(m: TagRegistryView, ancs: Seq<Seq<char>>, k: Seq<char>)
    requires
        m.keys.len() == m.infos.len(),
    ensures
        lookup_info(add_ancestors(m, ancs), k) == if lookup_info(m, k) is Some {
            lookup_info(m, k)
        } else if ancs.contains(k) {
            Some(implicit_info(k))
        } else {
            None
        },
        add_ancestors(m, ancs).alias_keys == m.alias_keys,
        add_ancestors(m, ancs).alias_vals == m.alias_vals,
    decreases ancs.len(),
{
    if ancs.len() > 0 {
        let a = ancs[0];
        let m1 = add_info_if_absent(m, a, implicit_info(a));
        lemma_index_of_str(m.keys, a);
        if index_of_str(m.keys, a) < 0 {
            lemma_lookup_after_push(m.keys, m.infos, a, implicit_info(a), m);
        }
        lemma_add_ancestors_frame(m1, ancs.drop_first(), k);
        if ancs.drop_first().contains(k) {
            let j = choose|j: int| 0 <= j < ancs.drop_first().len() && ancs.drop_first()[j] == k;
            assert(ancs[j + 1] == k);
        }
        if ancs.contains(k) && k != a {
            let j = choose|j: int| 0 <= j < ancs.len() && ancs[j] == k;
            assert(ancs.drop_first()[j - 1] == k);
        }
        if k == a {
            assert(ancs[0] == k);
        }
    }
}

proof fn lemma_lookup_put(m: TagRegistryView, t: Seq<char>, info: TagInfoView, k: Seq<char>)
    requires
        m.keys.len() == m.infos.len(),
    ensures
        lookup_info(put_info(m, t, info), k) == if k == t { Some(info) } else { lookup_info(m, k) },
        put_info(m, t, info).keys.len() == put_info(m, t, info).infos.len(),
        put_info(m, t, info).alias_keys == m.alias_keys,
        put_info(m, t, info).alias_vals == m.alias_vals,
{
    lemma_index_of_str(m.keys, t);
    lemma_index_of_str(m.keys, k);
    if index_of_str(m.keys, t) < 0 {
        lemma_lookup_after_push(m.keys, m.infos, t, info, m);
    }
}

/// Registering `t` stores the given metadata under `t`; each ancestor of `t`
/// keeps its metadata or, if it had none, is registered with its leaf as
/// name; every other path keeps its metadata or stays unregistered; the
/// aliases are unchanged.
pub proof fn law_register_frame(m: TagRegistryView, t: Seq<char>, name: Seq<char>, desc: Seq<char>, k: Seq<char>)
    requires
        m.keys.len() == m.infos.len(),
    ensures
        lookup_info(register_spec(m, t, name, desc), k) == if k == t {
            Some(TagInfoView { tag: t, display_name: name, description: desc, icon: Seq::empty(), color: Seq::empty() })
        } else if lookup_info(m, k) is Some {
            lookup_info(m, k)
        } else if tag_ancestors(t).contains(k) {
            Some(implicit_info(k))
        } else {
            None
        },
        register_spec(m, t, name, desc).alias_keys == m.alias_keys,
        register_spec(m, t, name, desc).alias_vals == m.alias_vals,
        register_spec(m, t, name, desc).keys.len() == register_spec(m, t, name, desc).infos.len(),
{
    let info = TagInfoView { tag: t, display_name: name, description: desc, icon: Seq::empty(), color: Seq::empty() };
    lemma_lookup_put(m, t, info, k);
    lemma_add_ancestors_frame(put_info(m, t, info), tag_ancestors(t), k);
    lemma_add_ancestors(put_info(m, t, info), tag_ancestors(t));
}

/// Changing the metadata of a path changes nothing when the path is not
/// registered (`set_color` and `set_icon` register no tag), and otherwise
/// only the metadata of that path.
pub proof fn law_update_info(m: TagRegistryView, k: Seq<char>, f: spec_fn(TagInfoView) -> TagInfoView, j: Seq<char>)
    requires
        m.keys.len() == m.infos.len(),
    ensures
        lookup_info(m, k) is None ==> update_info(m, k, f) == m,
        lookup_info(update_info(m, k, f), j) == if j == k && lookup_info(m, k) is Some {
            Some(f(lookup_info(m, k)->0))
        } else {
            lookup_info(m, j)
        },
        update_info(m, k, f).keys == m.keys,
        update_info(m, k, f).infos.len() == m.infos.len(),
        update_info(m, k, f).alias_keys == m.alias_keys,
        update_info(m, k, f).alias_vals == m.alias_vals,
{
    lemma_index_of_str(m.keys, k);
    lemma_index_of_str(m.keys, j);
}

/// `register_full` (and `register_with_icon`) on a path that normalizes to
/// `t` in one step as in two: `t` gets the given metadata with its icon and
/// color set by `f`; every other path is as `register` leaves it.
pub proof fn law_register_then_update(
    m: TagRegistryView,
    t: Seq<char>,
    name: Seq<char>,
    desc: Seq<char>,
    f: spec_fn(TagInfoView) -> TagInfoView,
    k: Seq<char>,
)
    requires
        m.keys.len() == m.infos.len(),
    ensures
        lookup_info(update_info(register_spec(m, t, name, desc), t, f), k) == if k == t {
            Some(f(TagInfoView { tag: t, display_name: name, description: desc, icon: Seq::empty(), color: Seq::empty() }))
        } else {
            lookup_info(register_spec(m, t, name, desc), k)
        },
{
    law_register_frame(m, t, name, desc, k);
    law_register_frame(m, t, name, desc, t);
    let r = register_spec(m, t, name, desc);
    let info = TagInfoView { tag: t, display_name: name, description: desc, icon: Seq::empty(), color: Seq::empty() };
    lemma_lookup_put(m, t, info, t);
    lemma_add_ancestors(put_info(m, t, info), tag_ancestors(t));
    assert(r.keys.len() == r.infos.len());
    lemma_index_of_str(r.keys, t);
    lemma_index_of_str(r.keys, k);
}

/// Resolving an alias gives the path it stands for.
pub proof fn law_alias_resolves(m: TagRegistryView, k: Seq<char>, v: Seq<char>)
    requires
        crate::tags::registry_wf(m),
    ensures
        lookup_alias(crate::tags::aliased(m, k, v), k) == Some(v),
{
    lemma_index_of_str(m.alias_keys, k);
    let i = index_of_str(m.alias_keys, k);
    if i < 0 {
        assert(m.alias_keys.push(k).drop_last() =~= m.alias_keys);
    }
}

proof fn lemma_kept_outside(ks: Seq<Seq<char>>, vs: Seq<TagInfoView>, t: Seq<char>)
    ensures
        forall|j: int| 0 <= j < filter_pairs(ks, vs, key_keep(t)).0.len() ==> !in_subtree(#[trigger] filter_pairs(ks, vs, key_keep(t)).0[j], t),
    decreases ks.len(),
{
    if ks.len() > 0 && vs.len() > 0 {
        lemma_kept_outside(ks.drop_last(), vs.drop_last(), t);
        let r = filter_pairs(ks.drop_last(), vs.drop_last(), key_keep(t));
        assert forall|j: int| 0 <= j < filter_pairs(ks, vs, key_keep(t)).0.len() implies !in_subtree(#[trigger] filter_pairs(ks, vs, key_keep(t)).0[j], t) by {
            if j < r.0.len() {
                assert(filter_pairs(ks, vs, key_keep(t)).0[j] == r.0[j]);
            }
        }
    }
}

/// Removing a tag removes it and everything below it.
pub proof fn law_remove_subtree(m: TagRegistryView, t: Seq<char>)
    ensures
        forall|j: int| 0 <= j < remove_spec(m, t).keys.len() ==> !in_subtree(#[trigger] remove_spec(m, t).keys[j], t),
{
    lemma_kept_outside(m.keys, m.infos, t);
}

/// After a tag is added to a tag set, the set contains it.
pub proof fn law_tagset_add_contains(s: Seq<Seq<char>>, t: Seq<char>)
    ensures
        (if s.contains(t) { s } else { s.push(t) }).contains(t),
{
    if !s.contains(t) {
        assert(s.push(t)[s.len() as int] == t);
    }
}

/// After a tag is removed from a tag set, the set does not contain it, and
/// keeps every other tag.
pub proof fn law_tagset_remove(s: Seq<Seq<char>>, t: Seq<char>)
    ensures
        !without(s, t).contains(t),
        forall|x: Seq<char>| x != t && s.contains(x) ==> #[trigger] without(s, t).contains(x),
    decreases s.len(),
{
    if s.len() > 0 {
        law_tagset_remove(s.drop_last(), t);
        let w = without(s.drop_last(), t);
        if s.last() != t {
            if w.push(s.last()).contains(t) {
                let j = choose|j: int| 0 <= j < w.push(s.last()).len() && w.push(s.last())[j] == t;
                assert(j < w.len());
                assert(w[j] == t);
            }
        }
        assert forall|x: Seq<char>| x != t && s.contains(x) implies #[trigger] without(s, t).contains(x) by {
            let j = choose|j: int| 0 <= j < s.len() && s[j] == x;
            if j < s.len() - 1 {
                assert(s.drop_last()[j] == x);
                assert(s.drop_last().contains(x));
                assert(w.contains(x));
                if s.last() != t {
                    let k = choose|k: int| 0 <= k < w.len() && w[k] == x;
                    assert(w.push(s.last())[k] == x);
                }
            } else {
                assert(w.push(s.last())[w.len() as int] == x);
            }
        }
    }
}


// ── Filters, favorites, presets ────────────────────────────────

/// A sequence without the elements of key `k` has no element of key `k`.
pub proof fn lemma_drop_keyed_none<A>(s: Seq<A>, key: spec_fn(A) -> Seq<char>, k: Seq<char>)
    ensures
        forall|j: int| 0 <= j < drop_keyed(s, key, k).len() ==> key(#[trigger] drop_keyed(s, key, k)[j]) != k,
    decreases s.len(),
{
    if s.len() > 0 {
        lemma_drop_keyed_none(s.drop_last(), key, k);
        let d = drop_keyed(s.drop_last(), key, k);
        if key(s.last()) != k {
            assert forall|j: int| 0 <= j < d.push(s.last()).len() implies key(#[trigger] d.push(s.last())[j]) != k by {
                if j < d.len() {
                    assert(d.push(s.last())[j] == d[j]);
                }
            }
        }
    }
}

/// A sequence without `k` is unchanged when it does not hold `k`.
pub proof fn lemma_drop_absent(s: Seq<Seq<char>>, k: Seq<char>)
    requires
        !s.contains(k),
    ensures
        drop_keyed(s, str_key(), k) == s,
    decreases s.len(),
{
    if s.len() > 0 {
        assert(!s.drop_last().contains(k)) by {
            if s.drop_last().contains(k) {
                let j = choose|j: int| 0 <= j < s.drop_last().len() && s.drop_last()[j] == k;
                assert(s[j] == k);
            }
        }
        lemma_drop_absent(s.drop_last(), k);
        assert(s[s.len() - 1] == s.last());
        assert(s.drop_last().push(s.last()) =~= s);
    }
}

/// The first position of `k` in `s` pushed with `k`, when `s` lacks `k`, is the end.
pub proof fn lemma_first_keyed_push(s: Seq<Seq<char>>, k: Seq<char>)
    requires
        !s.contains(k),
    ensures
        first_keyed(s.push(k), str_key(), k) == s.len(),
{
    assert forall|j: int| 0 <= j < s.len() implies str_key()(#[trigger] s.push(k)[j]) != k by {
        assert(s.push(k)[j] == s[j]);
    }
    lemma_first_keyed(s.push(k), str_key(), k, s.len() as int);
}

/// The empty filter lets every item through.
pub proof fn law_empty_filter_passes(tags: Seq<Seq<char>>)
    ensures
        filter_passes(empty_filter(), tags),
{
}

/// Including a tag that is in neither list makes it included and not
/// excluded; including it again restores the filter.
pub proof fn law_toggle_include_twice(f: FilterStateView, tag: Seq<char>)
    requires
        !f.included.contains(tag),
        !f.excluded.contains(tag),
    ensures
        toggled_include(f, tag).included.contains(tag),
        !toggled_include(f, tag).excluded.contains(tag),
        toggled_include(toggled_include(f, tag), tag) == f,
{
    lemma_first_keyed_bounds(f.included, str_key(), tag);
    crate::ui::lemma_contains_first_keyed(f.included, tag);
    lemma_drop_absent(f.excluded, tag);
    lemma_first_keyed_push(f.included, tag);
    assert(f.included.push(tag)[f.included.len() as int] == tag);
    assert(f.included.push(tag).remove(f.included.len() as int) =~= f.included);
}

/// Excluding a tag that is in neither list makes it excluded and not
/// included; excluding it again restores the filter.
pub proof fn law_toggle_exclude_twice(f: FilterStateView, tag: Seq<char>)
    requires
        !f.included.contains(tag),
        !f.excluded.contains(tag),
    ensures
        toggled_exclude(f, tag).excluded.contains(tag),
        !toggled_exclude(f, tag).included.contains(tag),
        toggled_exclude(toggled_exclude(f, tag), tag) == f,
{
    lemma_first_keyed_bounds(f.excluded, str_key(), tag);
    crate::ui::lemma_contains_first_keyed(f.excluded, tag);
    lemma_drop_absent(f.included, tag);
    lemma_first_keyed_push(f.excluded, tag);
    assert(f.excluded.push(tag)[f.excluded.len() as int] == tag);
    assert(f.excluded.push(tag).remove(f.excluded.len() as int) =~= f.excluded);
}

/// Toggling a favorite twice restores the favorites.
pub proof fn law_favorite_toggle_twice(s: Set<Seq<char>>, id: Seq<char>)
    ensures
        ({
            let s1 = if s.contains(id) { s.remove(id) } else { s.insert(id) };
            let s2 = if s1.contains(id) { s1.remove(id) } else { s1.insert(id) };
            s2 == s
        }),
{
    if s.contains(id) {
        assert(s.remove(id).insert(id) =~= s);
    } else {
        assert(s.insert(id).remove(id) =~= s);
    }
}

/// A preset stored under a name is what looking up that name gives.
pub proof fn law_preset_add_get(s: Seq<FilterPresetView>, name: Seq<char>, state: FilterStateView)
    ensures
        ({
            let t = drop_keyed(s, preset_key(), name).push(FilterPresetView { name, state });
            let i = first_keyed(t, preset_key(), name);
            i >= 0 && t[i].state == state
        }),
{
    let d = drop_keyed(s, preset_key(), name);
    let t = d.push(FilterPresetView { name, state });
    lemma_drop_keyed_none(s, preset_key(), name);
    assert forall|j: int| 0 <= j < d.len() implies preset_key()(#[trigger] t[j]) != name by {
        assert(t[j] == d[j]);
    }
    lemma_first_keyed(t, preset_key(), name, d.len() as int);
}

/// Seeding a preset keeps the preset already stored under that name; when
/// there is none, the seeded preset is found afterwards.
pub proof fn law_seed_preset(s: Seq<FilterPresetView>, name: Seq<char>, state: FilterStateView)
    ensures
        first_keyed(s, preset_key(), name) >= 0 ==> crate::filter::seeded(s, name, state) == s,
        ({
            let t = crate::filter::seeded(s, name, state);
            let i = first_keyed(t, preset_key(), name);
            &&& i >= 0
            &&& first_keyed(s, preset_key(), name) < 0 ==> t[i].state == state
        }),
{
    if first_keyed(s, preset_key(), name) < 0 {
        law_preset_add_get(s, name, state);
    }
}

/// A removed preset is no longer found.
pub proof fn law_preset_remove(s: Seq<FilterPresetView>, name: Seq<char>)
    ensures
        first_keyed(drop_keyed(s, preset_key(), name), preset_key(), name) == -1,
{
    let d = drop_keyed(s, preset_key(), name);
    lemma_drop_keyed_none(s, preset_key(), name);
    lemma_first_keyed(d, preset_key(), name, d.len() as int);
}


// ── User data ──────────────────────────────────────────────────

/// A rating is capped at 5, and reading it back gives what was set.
pub proof fn law_rating_set_get(v: UserDataView, id: Seq<char>, rating: u8)
    ensures
        ({
            let capped: u8 = if rating < 5 { rating } else { 5 };
            let w = put_item(v, id, ItemDataView { rating: capped, ..item_or_default(v, id) });
            item_or_default(w, id).rating == capped && capped <= 5
        }),
{
}

/// Hiding an item twice restores its data.
pub proof fn law_hidden_toggle_twice(v: UserDataView, id: Seq<char>)
    ensures
        ({
            let d = item_or_default(v, id);
            let v1 = put_item(v, id, ItemDataView { hidden: !d.hidden, ..d });
            let d1 = item_or_default(v1, id);
            let v2 = put_item(v1, id, ItemDataView { hidden: !d1.hidden, ..d1 });
            item_or_default(v2, id) == d && d1.hidden == !d.hidden
        }),
{
}

/// A user tag added is among the item's user tags; adding it again changes nothing.
pub proof fn law_user_tag_added(d: ItemDataView, tag: Seq<char>)
    ensures
        with_tag(d, tag).user_tags.contains(tag),
        with_tag(with_tag(d, tag), tag) == with_tag(d, tag),
{
    if !d.user_tags.contains(tag) {
        assert(d.user_tags.push(tag)[d.user_tags.len() as int] == tag);
    }
}

/// Adding a tag to items one by one gives each of them the tag and takes no
/// tag from any item.
pub proof fn lemma_add_tag_all(v: UserDataView, ids: Seq<Seq<char>>, tag: Seq<char>)
    ensures
        forall|i: int|
            0 <= i < ids.len() ==> item_or_default(crate::userdata::add_tag_all(v, ids, tag), #[trigger] ids[i]).user_tags.contains(tag),
        forall|x: Seq<char>, t: Seq<char>|
            #[trigger] item_or_default(v, x).user_tags.contains(t) ==> item_or_default(
                crate::userdata::add_tag_all(v, ids, tag),
                x,
            ).user_tags.contains(t),
    decreases ids.len(),
{
    if ids.len() > 0 {
        let w = crate::userdata::add_tag_all(v, ids.drop_last(), tag);
        lemma_add_tag_all(v, ids.drop_last(), tag);
        let last = ids.last();
        let d = item_or_default(w, last);
        let u = put_item(w, last, with_tag(d, tag));
        law_user_tag_added(d, tag);
        assert forall|x: Seq<char>, t: Seq<char>| item_or_default(w, x).user_tags.contains(t) implies item_or_default(
            u,
            x,
        ).user_tags.contains(t) by {
            if x == last && !d.user_tags.contains(tag) {
                let j = choose|j: int| 0 <= j < d.user_tags.len() && d.user_tags[j] == t;
                assert(d.user_tags.push(tag)[j] == t);
            }
        }
        assert forall|i: int| 0 <= i < ids.len() implies item_or_default(u, #[trigger] ids[i]).user_tags.contains(tag) by {
            if i < ids.len() - 1 {
                assert(ids[i] == ids.drop_last()[i]);
                assert(item_or_default(w, ids[i]).user_tags.contains(tag));
            }
        }
    }
}

/// Syncing a tag to an item's variants gives every sibling the tag and
/// takes no tag from any item.
pub proof fn law_synced_tag_reaches_siblings(v: UserDataView, id: Seq<char>, tag: Seq<char>)
    ensures
        ({
            let sib = crate::userdata::siblings(v, id);
            let after = crate::userdata::add_tag_all(v, sib, tag);
            &&& forall|i: int| 0 <= i < sib.len() ==> item_or_default(after, #[trigger] sib[i]).user_tags.contains(tag)
            &&& forall|x: Seq<char>, t: Seq<char>|
                #[trigger] item_or_default(v, x).user_tags.contains(t) ==> item_or_default(after, x).user_tags.contains(t)
        }),
{
    lemma_add_tag_all(v, crate::userdata::siblings(v, id), tag);
}

/// The first time an item is seen is kept when it is seen again.
pub proof fn law_first_seen_kept(v: UserDataView, id: Seq<char>, t1: i64, t2: i64)
    requires
        item_or_default(v, id).first_seen is None,
    ensures
        item_or_default(seen_at(seen_at(v, id, t1), id, t2), id).first_seen == Some(t1),
{
}

/// Merging never replaces a first-seen time that is recorded.
pub proof fn law_merge_keeps_first_seen(d: ItemDataView, o: ItemDataView)
    ensures
        d.first_seen is Some ==> merged_item(d, o).first_seen == d.first_seen,
        merged_item(d, o).user_tags == d.user_tags,
{
}

// ── History ────────────────────────────────────────────────────

/// Recording a use raises the item's count for the query by one (up to the
/// largest count) and stamps it; every other entry is unchanged.
pub proof fn law_record_counts(h: HistoryView, q: Seq<char>, id: Seq<char>, now: i64)
    ensures
        entry_of(recorded(h, q, id, now), q, id) == Some(
            HistoryEntry {
                count: match entry_of(h, q, id) {
                    Some(e) => if e.count < u32::MAX { (e.count + 1) as u32 } else { e.count },
                    None => 1,
                },
                last_used: now,
            },
        ),
        forall|q2: Seq<char>, id2: Seq<char>|
            !(q2 == q && id2 == id) ==> #[trigger] entry_of(recorded(h, q, id, now), q2, id2) == entry_of(h, q2, id2),
{
}

/// A usage score lies between 0 and 100, and is 0 once the item has not
/// been used for ten days.
pub proof fn law_score_bounds(e: HistoryEntry, now: i64)
    ensures
        0 <= entry_score(e, now) <= 100,
        days_since(e.last_used, now) >= 10 ==> entry_score(e, now) == 0,
{
    let d = days_since(e.last_used, now);
    let base = if d >= 10 { 0 } else { 10 - d };
    let c: int = if e.count < 10 { e.count as int } else { 10 };
    if now - e.last_used > 0 {
        assert((now - e.last_used) / (DAY_MILLIS as int) >= 0) by (nonlinear_arith)
            requires
                now - e.last_used > 0,
        ;
    }
    assert(0 <= base <= 10);
    assert(0 <= base * c <= 100) by (nonlinear_arith)
        requires
            0 <= base <= 10,
            0 <= c <= 10,
    ;
}

/// After an item is erased, no query has an entry for it.
pub proof fn law_erase_item(h: HistoryView, id: Seq<char>, q: Seq<char>)
    ensures
        entry_of(h.map_values(|m: Map<Seq<char>, HistoryEntry>| m.remove(id)), q, id) is None,
{
}

// ── Extension preferences ──────────────────────────────────────

/// A preference set for an extension is what reading it back gives.
pub proof fn law_pref_set_get(prefs: Map<Seq<char>, Seq<char>>, ext: Seq<char>, name: Seq<char>, value: Seq<char>)
    ensures
        prefs.insert(pref_key(ext, name), value).contains_key(pref_key(ext, name)),
        prefs.insert(pref_key(ext, name), value)[pref_key(ext, name)] == value,
{
}

// ── Icons ──────────────────────────────────────────────────────

/// Once an identifier is resolved, resolving it again gives the same answer
/// from the cache.
pub proof fn law_icon_cached(v: IconResolverView, icon: Seq<char>, r: Option<Seq<char>>)
    ensures
        ({
            let w = IconResolverView {
                cache: v.cache.insert(icon, r),
                cache_order: v.cache_order.push(icon),
                ..v
            };
            w.cache.contains_key(icon) && w.cache[icon] == r
        }),
{
}

// ── Launcher window ────────────────────────────────────────────

/// Tab twice returns to the same search mode, with the first result selected.
pub proof fn law_tab_twice(s: SessionView, len: nat)
    ensures
        nav_key(nav_key(s, LauncherKey::Tab, len).0, LauncherKey::Tab, len).0 == (SessionView { selected: 0, ..s }),
{
}

/// Down then Up selects the same result again.
pub proof fn law_down_then_up(s: SessionView, len: nat)
    requires
        s.selected < len,
        len <= usize::MAX,
    ensures
        nav_key(nav_key(s, LauncherKey::ArrowDown, len).0, LauncherKey::ArrowUp, len).0 == s,
{
    if s.selected + 1 < len {
        lemma_small_mod((s.selected + 1) as nat, len);
    } else {
        lemma_mod_self_0(len as int);
    }
}

/// Moving with the arrow, page, Home and End keys keeps the selection on a
/// result.
pub proof fn law_nav_stays_in_range(s: SessionView, key: LauncherKey, len: nat)
    requires
        0 < len <= usize::MAX,
        s.selected < len,
    ensures
        nav_key(s, key, len).0.selected < len,
{
    if key == LauncherKey::ArrowDown {
        lemma_mod_pos_bound(s.selected + 1, len as int);
    }
}

/// After the selection is fitted to the results, it points at a result, or
/// at the start when there are none.
pub proof fn law_clamp_in_range(selected: usize, count: usize)
    ensures
        ({
            let r: usize = if count == 0 {
                0
            } else if selected >= count {
                (count - 1) as usize
            } else {
                selected
            };
            (count > 0 ==> r < count) && (count == 0 ==> r == 0)
        }),
{
}

// ── Keyed store ────────────────────────────────────────────────

/// A value stored under a key is what looking up the key gives; other keys
/// keep their values.
pub proof fn law_keyed_insert_get<V>(m: Map<Seq<char>, V>, k: Seq<char>, v: V, other: Seq<char>)
    ensures
        m.insert(k, v)[k] == v,
        other != k ==> m.insert(k, v).contains_key(other) == m.contains_key(other),
        other != k && m.contains_key(other) ==> m.insert(k, v)[other] == m[other],
{
}

// ── Sorting by name ────────────────────────────────────────────

/// `a` does not come after `b` by display name.
pub open spec fn name_le(a: TagInfoView, b: TagInfoView) -> bool {
    !lex_lt(b.display_name, a.display_name)
}

proof fn lemma_name_le_transitive(a: TagInfoView, b: TagInfoView, c: TagInfoView)
    requires
        name_le(a, b),
        name_le(b, c),
    ensures
        name_le(a, c),
{
    if lex_lt(c.display_name, a.display_name) {
        lemma_lex_total(b.display_name, a.display_name);
        if lex_lt(a.display_name, b.display_name) {
            lemma_lex_transitive(c.display_name, a.display_name, b.display_name);
        } else if a.display_name == b.display_name {
        }
    }
}

proof fn lemma_name_slot_split(t: Seq<TagInfoView>, x: TagInfoView)
    ensures
        forall|j: int| name_slot(t, x) <= j < t.len() ==> lex_lt(x.display_name, #[trigger] t[j].display_name),
        name_slot(t, x) > 0 ==> name_le(t[name_slot(t, x) - 1], x),
    decreases t.len(),
{
    lemma_name_slot(t, x);
    if t.len() > 0 && lex_lt(x.display_name, t.last().display_name) {
        lemma_name_slot_split(t.drop_last(), x);
        lemma_name_slot(t.drop_last(), x);
        assert forall|j: int| name_slot(t, x) <= j < t.len() implies lex_lt(x.display_name, #[trigger] t[j].display_name) by {
            if j < t.len() - 1 {
                assert(t[j] == t.drop_last()[j]);
            }
        }
        if name_slot(t, x) > 0 {
            assert(t[name_slot(t, x) - 1] == t.drop_last()[name_slot(t, x) - 1]);
        }
    } else if t.len() > 0 {
        lemma_lex_total(x.display_name, t.last().display_name);
    }
}

/// Tags sorted by display name come in non-decreasing order of name.
pub proof fn law_sorted_by_name(s: Seq<TagInfoView>)
    ensures
        forall|i: int, j: int| 0 <= i < j < sort_by_name(s).len() ==> name_le(#[trigger] sort_by_name(s)[i], #[trigger] sort_by_name(s)[j]),
    decreases s.len(),
{
    if s.len() > 0 {
        law_sorted_by_name(s.drop_last());
        let t = sort_by_name(s.drop_last());
        let x = s.last();
        lemma_name_slot(t, x);
        lemma_name_slot_split(t, x);
        let k = name_slot(t, x);
        let r = t.insert(k, x);
        assert forall|i: int, j: int| 0 <= i < j < r.len() implies name_le(#[trigger] r[i], #[trigger] r[j]) by {
            if j < k {
                assert(r[i] == t[i] && r[j] == t[j]);
            } else if j == k {
                assert(r[j] == x);
                assert(r[i] == t[i]);
                if i < k - 1 {
                    assert(name_le(t[i], t[k - 1]));
                    lemma_name_le_transitive(t[i], t[k - 1], x);
                }
            } else if i == k {
                assert(r[i] == x && r[j] == t[j - 1]);
                lemma_lex_asymmetric(x.display_name, t[j - 1].display_name);
            } else if i < k {
                assert(r[i] == t[i] && r[j] == t[j - 1]);
            } else {
                assert(r[i] == t[i - 1] && r[j] == t[j - 1]);
            }
        }
    }
}

// ── Exact matching ─────────────────────────────────────────────

/// Whether the lower-cased query occurs in the lower-cased field.
pub open spec fn occurs_lowercased(field: Seq<char>, q: Seq<char>) -> bool {
    let h = encode_utf8(lowercase(field));
    let n = encode_utf8(lowercase(q));
    exists|j: int| 0 <= j && j + n.len() <= h.len() && #[trigger] h.subrange(j, j + n.len()) == n
}

/// An exact hit is the first occurrence of the query in an item's search
/// fields, both lower-cased: the field's bytes at the hit's offset are the
/// query's, nothing earlier in that field is, and no earlier field holds the
/// query. No hit means that no field holds it.
pub proof fn law_exact_hit_is_first_occurrence(fields: Seq<Seq<char>>, q: Seq<char>)
    ensures
        match exact_hit_from(fields, q, 0) {
            Some((k, p)) => {
                let h = encode_utf8(lowercase(fields[k]));
                let n = encode_utf8(lowercase(q));
                &&& 0 <= k < fields.len()
                &&& 0 <= p && p + n.len() <= h.len() && h.subrange(p, p + n.len()) == n
                &&& forall|j: int| 0 <= j < p ==> #[trigger] h.subrange(j, j + n.len()) != n
                &&& forall|m: int| 0 <= m < k ==> !occurs_lowercased(#[trigger] fields[m], q)
            },
            None => forall|m: int| 0 <= m < fields.len() ==> !occurs_lowercased(#[trigger] fields[m], q),
        },
{
    lemma_exact_hit_from(fields, q, 0);
    let n = encode_utf8(lowercase(q));
    assert forall|m: int|
        0 <= m < fields.len() && find_bytes(encode_utf8(lowercase(fields[m])), n) == -1 implies !occurs_lowercased(
        #[trigger] fields[m],
        q,
    ) by {
        lemma_find_bytes_from(encode_utf8(lowercase(fields[m])), n, 0);
    }
    match exact_hit_from(fields, q, 0) {
        Some((k, p)) => {
            lemma_find_bytes_from(encode_utf8(lowercase(fields[k])), n, 0);
        },
        None => {},
    }
}

// ── Packs ──────────────────────────────────────────────────────

proof fn lemma_add_ancestors_keys(m: TagRegistryView, ancs: Seq<Seq<char>>)
    ensures
        forall|k: Seq<char>| m.keys.contains(k) ==> #[trigger] add_ancestors(m, ancs).keys.contains(k),
    decreases ancs.len(),
{
    if ancs.len() > 0 {
        let m1 = add_info_if_absent(m, ancs[0], crate::tags::implicit_info(ancs[0]));
        assert forall|k: Seq<char>| m.keys.contains(k) implies m1.keys.contains(k) by {
            if index_of_str(m.keys, ancs[0]) < 0 {
                let j = choose|j: int| 0 <= j < m.keys.len() && m.keys[j] == k;
                assert(m1.keys[j] == k);
            }
        }
        lemma_add_ancestors_keys(m1, ancs.drop_first());
        assert(add_ancestors(m, ancs) == add_ancestors(m1, ancs.drop_first()));
    }
}

proof fn lemma_register_keys(m: TagRegistryView, t: Seq<char>, name: Seq<char>, desc: Seq<char>)
    ensures
        register_spec(m, t, name, desc).keys.contains(t),
        forall|k: Seq<char>| m.keys.contains(k) ==> #[trigger] register_spec(m, t, name, desc).keys.contains(k),
{
    let info = TagInfoView { tag: t, display_name: name, description: desc, icon: Seq::empty(), color: Seq::empty() };
    let m1 = put_info(m, t, info);
    lemma_index_of_str(m.keys, t);
    if index_of_str(m.keys, t) < 0 {
        assert(m1.keys[m.keys.len() as int] == t);
        assert forall|k: Seq<char>| m.keys.contains(k) implies m1.keys.contains(k) by {
            let j = choose|j: int| 0 <= j < m.keys.len() && m.keys[j] == k;
            assert(m1.keys[j] == k);
        }
    }
    assert(m1.keys.contains(t));
    lemma_add_ancestors_keys(m1, tag_ancestors(t));
}

proof fn lemma_pack_tags_keys(m: TagRegistryView, tags: Seq<crate::pack::PackTag>)
    ensures
        forall|k: Seq<char>| m.keys.contains(k) ==> #[trigger] crate::pack::register_pack_tags(m, tags).keys.contains(k),
        forall|j: int|
            0 <= j < tags.len() ==> crate::pack::register_pack_tags(m, tags).keys.contains(
                normalize_tag_path(#[trigger] tags[j].path@),
            ),
    decreases tags.len(),
{
    if tags.len() > 0 {
        let prev = crate::pack::register_pack_tags(m, tags.drop_last());
        lemma_pack_tags_keys(m, tags.drop_last());
        let t = tags.last();
        lemma_register_keys(prev, normalize_tag_path(t.path@), t.name@, t.description@);
        assert forall|j: int| 0 <= j < tags.len() - 1 implies #[trigger] tags[j] == tags.drop_last()[j] by {}
    }
}

/// Registering packs registers every tag they define (normalized), and keeps
/// every tag registered before.
pub proof fn law_packs_register_their_tags(m: TagRegistryView, packs: Seq<crate::pack::LoadedPack>)
    ensures
        forall|k: Seq<char>| m.keys.contains(k) ==> #[trigger] crate::pack::packs_registered(m, packs).keys.contains(k),
        forall|p: int, j: int|
            0 <= p < packs.len() && 0 <= j < packs[p].def.tags@.len() ==> crate::pack::packs_registered(
                m,
                packs,
            ).keys.contains(normalize_tag_path(#[trigger] packs[p].def.tags@[j].path@)),
    decreases packs.len(),
{
    if packs.len() > 0 {
        let prev = crate::pack::packs_registered(m, packs.drop_last());
        law_packs_register_their_tags(m, packs.drop_last());
        lemma_pack_tags_keys(prev, packs.last().def.tags@);
        assert forall|p: int| 0 <= p < packs.len() - 1 implies #[trigger] packs[p] == packs.drop_last()[p] by {}
    }
}

// ── Result steps ───────────────────────────────────────────────

/// Among the first `k` items, the kept positions are increasing, in range,
/// and each kept item is not hidden; every item not hidden is kept.
pub proof fn lemma_shown_upto(items: Seq<crate::provider::Item>, ud: UserDataView, k: int)
    requires
        0 <= k <= items.len(),
    ensures
        ({
            let p = crate::query::shown_upto(items, ud, k);
            &&& forall|i: int| 0 <= i < p.len() ==> 0 <= #[trigger] p[i] < k
            &&& forall|i: int, j: int| 0 <= i < j < p.len() ==> p[i] < p[j]
            &&& forall|i: int| 0 <= i < p.len() ==> !item_or_default(ud, items[#[trigger] p[i]].id@).hidden
            &&& forall|j: int| 0 <= j < k && !item_or_default(ud, items[j].id@).hidden ==> p.contains(j)
        }),
    decreases k,
{
    if k > 0 {
        lemma_shown_upto(items, ud, k - 1);
        let q = crate::query::shown_upto(items, ud, k - 1);
        let p = crate::query::shown_upto(items, ud, k);
        if !item_or_default(ud, items[k - 1].id@).hidden {
            assert(p == q.push(k - 1));
            assert forall|j: int| 0 <= j < k && !item_or_default(ud, items[j].id@).hidden implies p.contains(j) by {
                if j < k - 1 {
                    assert(q.contains(j));
                    let t = choose|t: int| 0 <= t < q.len() && q[t] == j;
                    assert(p[t] == j);
                } else {
                    assert(p[q.len() as int] == j);
                }
            }
        }
    }
}

/// Hidden items never reach the results: the items that user data lets
/// through are exactly the items not hidden, in their order.
pub proof fn law_hidden_items_never_shown(items: Seq<crate::provider::Item>, ud: UserDataView)
    ensures
        ({
            let p = crate::query::shown_upto(items, ud, items.len() as int);
            &&& forall|i: int| 0 <= i < p.len() ==> !item_or_default(ud, items[#[trigger] p[i]].id@).hidden
            &&& forall|i: int, j: int| 0 <= i < j < p.len() ==> p[i] < p[j]
            &&& forall|j: int| 0 <= j < items.len() && !item_or_default(ud, items[j].id@).hidden ==> p.contains(j)
        }),
{
    lemma_shown_upto(items, ud, items.len() as int);
}

/// Among the first `k` items, the kept positions are increasing and in range,
/// and they are exactly those of the items that match the tag.
pub proof fn lemma_tagged_upto(items: Seq<crate::provider::Item>, tag: Seq<char>, k: int)
    requires
        0 <= k <= items.len(),
    ensures
        ({
            let p = crate::query::tagged_upto(items, tag, k);
            &&& forall|i: int| 0 <= i < p.len() ==> 0 <= #[trigger] p[i] < k
            &&& forall|i: int, j: int| 0 <= i < j < p.len() ==> p[i] < p[j]
            &&& forall|i: int| 0 <= i < p.len() ==> tags_match(items[#[trigger] p[i]]@.tags, tag)
            &&& forall|j: int| 0 <= j < k && tags_match(items[j]@.tags, tag) ==> p.contains(j)
        }),
    decreases k,
{
    if k > 0 {
        lemma_tagged_upto(items, tag, k - 1);
        let q = crate::query::tagged_upto(items, tag, k - 1);
        let p = crate::query::tagged_upto(items, tag, k);
        if tags_match(items[k - 1]@.tags, tag) {
            assert(p == q.push(k - 1));
            assert forall|j: int| 0 <= j < k && tags_match(items[j]@.tags, tag) implies p.contains(j) by {
                if j < k - 1 {
                    assert(q.contains(j));
                    let t = choose|t: int| 0 <= t < q.len() && q[t] == j;
                    assert(p[t] == j);
                } else {
                    assert(p[q.len() as int] == j);
                }
            }
        }
    }
}

/// An inline `#tag` keeps exactly the items tagged with the tag or a tag
/// under it, in their order.
pub proof fn law_tag_filter_keeps_tagged(items: Seq<crate::provider::Item>, tag: Seq<char>)
    ensures
        ({
            let p = crate::query::tagged_upto(items, tag, items.len() as int);
            &&& forall|i: int| 0 <= i < p.len() ==> tags_match(items[#[trigger] p[i]]@.tags, tag)
            &&& forall|i: int, j: int| 0 <= i < j < p.len() ==> p[i] < p[j]
            &&& forall|j: int| 0 <= j < items.len() && tags_match(items[j]@.tags, tag) ==> p.contains(j)
        }),
{
    lemma_tagged_upto(items, tag, items.len() as int);
}

/// Among the first `k` items, the kept positions are increasing and in range,
/// and they are exactly those of the items the filter lets through.
pub proof fn lemma_passing_upto(items: Seq<crate::provider::Item>, f: FilterStateView, k: int)
    requires
        0 <= k <= items.len(),
    ensures
        ({
            let p = crate::query::passing_upto(items, f, k);
            &&& forall|i: int| 0 <= i < p.len() ==> 0 <= #[trigger] p[i] < k
            &&& forall|i: int, j: int| 0 <= i < j < p.len() ==> p[i] < p[j]
            &&& forall|i: int| 0 <= i < p.len() ==> filter_passes(f, items[#[trigger] p[i]]@.tags)
            &&& forall|j: int| 0 <= j < k && filter_passes(f, items[j]@.tags) ==> p.contains(j)
        }),
    decreases k,
{
    if k > 0 {
        lemma_passing_upto(items, f, k - 1);
        let q = crate::query::passing_upto(items, f, k - 1);
        let p = crate::query::passing_upto(items, f, k);
        if filter_passes(f, items[k - 1]@.tags) {
            assert(p == q.push(k - 1));
            assert forall|j: int| 0 <= j < k && filter_passes(f, items[j]@.tags) implies p.contains(j) by {
                if j < k - 1 {
                    assert(q.contains(j));
                    let t = choose|t: int| 0 <= t < q.len() && q[t] == j;
                    assert(p[t] == j);
                } else {
                    assert(p[q.len() as int] == j);
                }
            }
        }
    }
}

/// A filter keeps exactly the items it lets through, in their order; the
/// empty filter keeps them all.
pub proof fn law_filter_keeps_passing(items: Seq<crate::provider::Item>, f: FilterStateView)
    ensures
        ({
            let p = crate::query::passing_upto(items, f, items.len() as int);
            &&& forall|i: int| 0 <= i < p.len() ==> filter_passes(f, items[#[trigger] p[i]]@.tags)
            &&& forall|i: int, j: int| 0 <= i < j < p.len() ==> p[i] < p[j]
            &&& forall|j: int| 0 <= j < items.len() && filter_passes(f, items[j]@.tags) ==> p.contains(j)
            &&& f == empty_filter() ==> p.len() == items.len()
        }),
{
    lemma_passing_upto(items, f, items.len() as int);
    if f == empty_filter() {
        lemma_passing_all(items, f, items.len() as int);
    }
}

proof fn lemma_passing_all(items: Seq<crate::provider::Item>, f: FilterStateView, k: int)
    requires
        0 <= k <= items.len(),
        f == empty_filter(),
    ensures
        crate::query::passing_upto(items, f, k).len() == k,
    decreases k,
{
    if k > 0 {
        lemma_passing_all(items, f, k - 1);
        law_empty_filter_passes(items[k - 1]@.tags);
    }
}

// ── Calculator ─────────────────────────────────────────────────

/// Every number the calculator reads is a non-empty run of digits and dots
/// of the expression, in range.
pub proof fn law_number_tokens_are_digit_runs(s: Seq<char>)
    requires
        s.len() <= usize::MAX,
    ensures
        crate::calc::tokens_of(s) matches Some(t) ==> crate::calc::numbers_are_runs(s, t),
{
    crate::calc::lemma_tokens_from_runs(s, 0, -1);
}

// ── Keyed lists ────────────────────────────────────────────────

/// No two elements of `s` have the same key.
pub open spec fn keys_distinct<A>(s: Seq<A>, key: spec_fn(A) -> Seq<char>) -> bool {
    forall|i: int, j: int| 0 <= i < j < s.len() ==> key(#[trigger] s[i]) != key(#[trigger] s[j])
}

proof fn lemma_drop_keyed_subset<A>(s: Seq<A>, key: spec_fn(A) -> Seq<char>, k: Seq<char>, y: A)
    ensures
        drop_keyed(s, key, k).contains(y) ==> s.contains(y),
    decreases s.len(),
{
    if s.len() > 0 {
        lemma_drop_keyed_subset(s.drop_last(), key, k, y);
        let d = drop_keyed(s.drop_last(), key, k);
        if drop_keyed(s, key, k).contains(y) {
            if d.contains(y) {
                let j = choose|j: int| 0 <= j < s.drop_last().len() && s.drop_last()[j] == y;
                assert(s[j] == y);
            } else {
                let j = choose|j: int| 0 <= j < drop_keyed(s, key, k).len() && drop_keyed(s, key, k)[j] == y;
                if j < d.len() {
                    assert(d[j] == y);
                }
                assert(s[s.len() - 1] == y);
            }
        }
    }
}

proof fn lemma_drop_keyed_distinct<A>(s: Seq<A>, key: spec_fn(A) -> Seq<char>, k: Seq<char>)
    requires
        keys_distinct(s, key),
    ensures
        keys_distinct(drop_keyed(s, key, k), key),
    decreases s.len(),
{
    if s.len() > 0 {
        let t = s.drop_last();
        assert(keys_distinct(t, key)) by {
            assert forall|i: int, j: int| 0 <= i < j < t.len() implies key(#[trigger] t[i]) != key(#[trigger] t[j]) by {
                assert(t[i] == s[i] && t[j] == s[j]);
            }
        }
        lemma_drop_keyed_distinct(t, key, k);
        let d = drop_keyed(t, key, k);
        if key(s.last()) != k {
            let e = d.push(s.last());
            assert forall|i: int, j: int| 0 <= i < j < e.len() implies key(#[trigger] e[i]) != key(#[trigger] e[j]) by {
                if j < d.len() {
                    assert(e[i] == d[i] && e[j] == d[j]);
                } else {
                    assert(e[i] == d[i]);
                    assert(d.contains(d[i]));
                    lemma_drop_keyed_subset(t, key, k, d[i]);
                    let m = choose|m: int| 0 <= m < t.len() && t[m] == d[i];
                    assert(s[m] == t[m]);
                    assert(key(s[m]) != key(s[s.len() - 1]));
                }
            }
        }
    }
}

/// Adding an element in place of those with its key keeps keys distinct:
/// after `MagicWords::add` no two magic words share a keyword, and after
/// `FilterPresets::add` no two presets share a name.
pub proof fn law_keyed_replace_keeps_keys_distinct<A>(s: Seq<A>, key: spec_fn(A) -> Seq<char>, x: A)
    requires
        keys_distinct(s, key),
    ensures
        keys_distinct(drop_keyed(s, key, key(x)).push(x), key),
{
    let d = drop_keyed(s, key, key(x));
    lemma_drop_keyed_distinct(s, key, key(x));
    lemma_drop_keyed_none(s, key, key(x));
    let e = d.push(x);
    assert forall|i: int, j: int| 0 <= i < j < e.len() implies key(#[trigger] e[i]) != key(#[trigger] e[j]) by {
        assert(e[i] == d[i]);
        if j < d.len() {
            assert(e[j] == d[j]);
        }
    }
}

// ── Highlighted labels ─────────────────────────────────────────

/// The text of a run of segments, joined.
pub open spec fn segments_text(segs: Seq<TextSegmentView>) -> Seq<char>
    decreases segs.len(),
{
    if segs.len() == 0 {
        Seq::empty()
    } else {
        segments_text(segs.drop_last()) + segs.last().text
    }
}

/// Positions in increasing order, each once.
pub open spec fn strictly_increasing(p: Seq<u32>) -> bool {
    forall|i: int, j: int| 0 <= i < j < p.len() ==> #[trigger] p[i] < #[trigger] p[j]
}

proof fn lemma_highlight_upto_text(c: Seq<char>, p: Seq<u32>)
    requires
        strictly_increasing(p),
    ensures
        ({
            let (last, segs) = highlight_upto(c, p);
            &&& segments_text(segs) == c.take(last)
            &&& forall|i: int| 0 <= i < segs.len() ==> (#[trigger] segs[i]).text.len() > 0
            &&& p.len() > 0 ==> last <= p.last() + 1
        }),
    decreases p.len(),
{
    lemma_highlight_upto_bounds(c, p);
    if p.len() > 0 {
        let q = p.drop_last();
        assert(strictly_increasing(q)) by {
            assert forall|i: int, j: int| 0 <= i < j < q.len() implies #[trigger] q[i] < #[trigger] q[j] by {
                assert(q[i] == p[i] && q[j] == p[j]);
            }
        }
        lemma_highlight_upto_text(c, q);
        lemma_highlight_upto_bounds(c, q);
        let (last, segs) = highlight_upto(c, q);
        let pos = p.last() as int;
        if q.len() > 0 {
            assert(q.last() == p[p.len() - 2]);
            assert(p[p.len() - 2] < p[p.len() - 1]);
        }
        if pos < c.len() {
            assert(pos >= last);
            let segs2 = if pos > last {
                segs.push(TextSegmentView { text: c.subrange(last, pos), highlighted: false })
            } else {
                segs
            };
            assert(segments_text(segs2) == c.take(pos)) by {
                if pos > last {
                    assert(segs2.drop_last() =~= segs);
                    assert(c.take(last) + c.subrange(last, pos) =~= c.take(pos));
                } else {
                    assert(c.take(last) =~= c.take(pos));
                }
            }
            let segs3 = segs2.push(TextSegmentView { text: c.subrange(pos, pos + 1), highlighted: true });
            assert(segs3.drop_last() =~= segs2);
            assert(c.take(pos) + c.subrange(pos, pos + 1) =~= c.take(pos + 1));
            assert forall|i: int| 0 <= i < segs3.len() implies (#[trigger] segs3[i]).text.len() > 0 by {
                if i < segs.len() {
                    assert(segs3[i] == segs[i]);
                }
            }
        }
    }
}

/// Splitting a label at strictly increasing positions loses no text: the
/// segments joined are the label, and none is empty unless the label and
/// the positions both are.
pub proof fn law_highlight_covers_label(text: Seq<char>, positions: Seq<u32>)
    requires
        strictly_increasing(positions),
    ensures
        segments_text(highlight_spec(text, positions)) == text,
        positions.len() > 0 || text.len() > 0 ==> forall|i: int|
            0 <= i < highlight_spec(text, positions).len() ==> (#[trigger] highlight_spec(text, positions)[i]).text.len() > 0,
{
    if positions.len() == 0 {
        let r = highlight_spec(text, positions);
        assert(r.drop_last() =~= Seq::<TextSegmentView>::empty());
        assert(segments_text(r.drop_last()) =~= Seq::<char>::empty());
        assert(segments_text(r) =~= text);
    } else {
        lemma_highlight_upto_text(text, positions);
        lemma_highlight_upto_bounds(text, positions);
        let (last, segs) = highlight_upto(text, positions);
        if last < text.len() {
            let r = segs.push(TextSegmentView { text: text.subrange(last, text.len() as int), highlighted: false });
            assert(r.drop_last() =~= segs);
            assert(text.take(last) + text.subrange(last, text.len() as int) =~= text);
            assert forall|i: int| 0 <= i < r.len() implies (#[trigger] r[i]).text.len() > 0 by {
                if i < segs.len() {
                    assert(r[i] == segs[i]);
                }
            }
        } else {
            assert(text.take(last) =~= text);
        }
    }
}

// ── Extension tags ─────────────────────────────────────────────

/// The metadata an extension tag definition registers.
pub open spec fn tag_def_info(d: ExtTagDef) -> TagInfoView {
    TagInfoView {
        tag: normalize_tag_path(d.path@),
        display_name: d.name@,
        description: Seq::empty(),
        icon: Seq::empty(),
        color: d.color@,
    }
}

proof fn lemma_tag_def(m: TagRegistryView, d: ExtTagDef, k: Seq<char>)
    requires
        m.keys.len() == m.infos.len(),
    ensures
        register_tag_def(m, d).keys.len() == register_tag_def(m, d).infos.len(),
        lookup_info(register_tag_def(m, d), normalize_tag_path(d.path@)) == Some(tag_def_info(d)),
        k != normalize_tag_path(d.path@) && lookup_info(m, k) is Some ==> lookup_info(register_tag_def(m, d), k) == lookup_info(m, k),
{
    let p = normalize_tag_path(d.path@);
    let r = register_spec(m, p, d.name@, Seq::empty());
    law_register_frame(m, p, d.name@, Seq::empty(), k);
    law_register_frame(m, p, d.name@, Seq::empty(), p);
    let f = |i: TagInfoView| TagInfoView { color: d.color@, ..i };
    law_update_info(r, p, f, p);
    law_update_info(r, p, f, k);
    if d.color@.len() == 0 {
        assert(d.color@ =~= Seq::<char>::empty());
    }
}

proof fn lemma_tag_defs_frame(m: TagRegistryView, defs: Seq<ExtTagDef>, k: Seq<char>)
    requires
        m.keys.len() == m.infos.len(),
    ensures
        register_tag_defs(m, defs).keys.len() == register_tag_defs(m, defs).infos.len(),
        (forall|j: int| 0 <= j < defs.len() ==> normalize_tag_path(#[trigger] defs[j].path@) != k) && lookup_info(m, k) is Some
            ==> lookup_info(register_tag_defs(m, defs), k) == lookup_info(m, k),
    decreases defs.len(),
{
    if defs.len() > 0 {
        lemma_tag_defs_frame(m, defs.drop_last(), k);
        lemma_tag_def(register_tag_defs(m, defs.drop_last()), defs.last(), k);
        if forall|j: int| 0 <= j < defs.len() ==> normalize_tag_path(#[trigger] defs[j].path@) != k {
            assert forall|j: int| 0 <= j < defs.drop_last().len() implies normalize_tag_path(#[trigger] defs.drop_last()[j].path@) != k by {
                assert(defs.drop_last()[j] == defs[j]);
            }
            assert(normalize_tag_path(defs[defs.len() - 1].path@) != k);
        }
    }
}

/// The definition of a tag path registered last wins: after the definitions
/// of one extension are registered, a path holds the name and color of the
/// last definition that normalizes to it.
pub proof fn law_tag_defs_last_wins(m: TagRegistryView, defs: Seq<ExtTagDef>, i: int)
    requires
        m.keys.len() == m.infos.len(),
        0 <= i < defs.len(),
        forall|j: int| i < j < defs.len() ==> normalize_tag_path(#[trigger] defs[j].path@) != normalize_tag_path(defs[i].path@),
    ensures
        lookup_info(register_tag_defs(m, defs), normalize_tag_path(defs[i].path@)) == Some(tag_def_info(defs[i])),
    decreases defs.len(),
{
    let p = normalize_tag_path(defs[i].path@);
    lemma_tag_defs_frame(m, defs.drop_last(), p);
    if i == defs.len() - 1 {
        lemma_tag_def(register_tag_defs(m, defs.drop_last()), defs.last(), p);
    } else {
        assert forall|j: int| i < j < defs.drop_last().len() implies normalize_tag_path(#[trigger] defs.drop_last()[j].path@) != normalize_tag_path(
            defs.drop_last()[i].path@,
        ) by {
            assert(defs.drop_last()[j] == defs[j]);
        }
        law_tag_defs_last_wins(m, defs.drop_last(), i);
        assert(defs.drop_last()[i] == defs[i]);
        assert(normalize_tag_path(defs[defs.len() - 1].path@) != p);
        lemma_tag_def(register_tag_defs(m, defs.drop_last()), defs.last(), p);
    }
}

/// An extension's items all belong to the provider named after the
/// extension, and each has at least one action.
pub proof fn law_extension_items_shape(e: LoadedExtension)
    ensures
        forall|i: int| 0 <= i < extension_items(e).len() ==> (#[trigger] extension_items(e)[i]).provider
            == e.manifest.extension.name@ && extension_items(e)[i].actions.len() > 0,
{
    lemma_extension_items_upto_shape(e, e.manifest.commands@.len() as int);
}

proof fn lemma_extension_items_upto_shape(e: LoadedExtension, n: int)
    ensures
        forall|i: int| 0 <= i < extension_items_upto(e, n).len() ==> (#[trigger] extension_items_upto(e, n)[i]).provider
            == e.manifest.extension.name@ && extension_items_upto(e, n)[i].actions.len() > 0,
    decreases n,
{
    if n > 0 && n <= e.manifest.commands@.len() {
        lemma_extension_items_upto_shape(e, n - 1);
        let a = extension_items_upto(e, n - 1);
        let cmd = e.manifest.commands@[n - 1];
        let b = command_items(e, cmd);
        assert forall|i: int| 0 <= i < (a + b).len() implies (#[trigger] (a + b)[i]).provider == e.manifest.extension.name@
            && (a + b)[i].actions.len() > 0 by {
            if i < a.len() {
                assert((a + b)[i] == a[i]);
            } else {
                assert((a + b)[i] == b[i - a.len()]);
            }
        }
        assert(extension_items_upto(e, n) == a + b);
    }
}

// ── Desktop entries ────────────────────────────────────────────

/// The field of the parse state that a text key of `[Desktop Entry]` sets.
pub open spec fn text_field(st: crate::desktop::DesktopParse, key: Seq<char>) -> Seq<char> {
    if key == "Name"@ {
        st.name
    } else if key == "GenericName"@ {
        st.generic_name
    } else if key == "Comment"@ {
        st.comment
    } else if key == "Exec"@ {
        st.command
    } else if key == "Icon"@ {
        st.icon
    } else {
        st.entry_type
    }
}

/// The keys whose value is kept as text.
pub open spec fn is_text_key(key: Seq<char>) -> bool {
    key == "Name"@ || key == "GenericName"@ || key == "Comment"@ || key == "Exec"@ || key == "Icon"@
        || key == "Type"@
}

/// The value a line read in state `st` gives `key`, if it is a `key=value`
/// line inside the `[Desktop Entry]` section.
pub open spec fn line_sets(st: crate::desktop::DesktopParse, raw: Seq<char>, key: Seq<char>) -> Option<Seq<char>> {
    let line = crate::text::trim_ws(raw);
    if (line.len() > 0 && line[0] == '[') || !st.in_entry {
        None
    } else {
        match crate::actions::split_once(line, '=') {
            Some((k0, v0)) => if crate::text::trim_ws(k0) == key {
                Some(crate::text::trim_ws(v0))
            } else {
                None
            },
            None => None,
        }
    }
}

#[verifier::spinoff_prover]
proof fn lemma_desktop_step(st: crate::desktop::DesktopParse, raw: Seq<char>, key: Seq<char>)
    requires
        is_text_key(key),
    ensures
        text_field(crate::desktop::parse_line(st, raw), key) == match line_sets(st, raw, key) {
            Some(v) => v,
            None => text_field(st, key),
        },
{
    reveal_strlit("Name");
    reveal_strlit("GenericName");
    reveal_strlit("Comment");
    reveal_strlit("Exec");
    reveal_strlit("Icon");
    reveal_strlit("Type");
    reveal_strlit("Hidden");
    reveal_strlit("NoDisplay");
    reveal_strlit("Keywords");
    reveal_strlit("Categories");
    assert("Name"@[0] != "Icon"@[0] && "Name"@[0] != "Exec"@[0] && "Name"@[0] != "Type"@[0]);
    assert("Icon"@[0] != "Exec"@[0] && "Icon"@[0] != "Type"@[0] && "Exec"@[0] != "Type"@[0]);
    assert("Comment"@[0] != "Keywords"@[0]);
    assert("Hidden"@[0] != "GenericName"@[0]);
}

/// In `[Desktop Entry]`, the last `key=value` line of a text key decides
/// its value: after the first `n` lines, the field holds the value of the
/// last of them that set it.
pub proof fn law_desktop_last_value(lines: Seq<Seq<char>>, key: Seq<char>, n: int, j: int)
    requires
        is_text_key(key),
        0 <= j < n <= lines.len(),
        line_sets(crate::desktop::parse_lines(lines, j), lines[j], key) is Some,
        forall|m: int| j < m < n ==> line_sets(crate::desktop::parse_lines(lines, m), #[trigger] lines[m], key) is None,
    ensures
        text_field(crate::desktop::parse_lines(lines, n), key) == line_sets(
            crate::desktop::parse_lines(lines, j),
            lines[j],
            key,
        )->0,
    decreases n,
{
    lemma_desktop_step(crate::desktop::parse_lines(lines, n - 1), lines[n - 1], key);
    if n - 1 > j {
        assert(line_sets(crate::desktop::parse_lines(lines, n - 1), lines[n - 1], key) is None);
        law_desktop_last_value(lines, key, n - 1, j);
    }
}

/// A text key that no line of `[Desktop Entry]` sets stays empty.
pub proof fn law_desktop_unset(lines: Seq<Seq<char>>, key: Seq<char>, n: int)
    requires
        is_text_key(key),
        0 <= n <= lines.len(),
        forall|m: int| 0 <= m < n ==> line_sets(crate::desktop::parse_lines(lines, m), #[trigger] lines[m], key) is None,
    ensures
        text_field(crate::desktop::parse_lines(lines, n), key) == Seq::<char>::empty(),
    decreases n,
{
    if n > 0 {
        lemma_desktop_step(crate::desktop::parse_lines(lines, n - 1), lines[n - 1], key);
        assert(line_sets(crate::desktop::parse_lines(lines, n - 1), lines[n - 1], key) is None);
        law_desktop_unset(lines, key, n - 1);
    }
}

// ── Tag registry edits ─────────────────────────────────────────

proof fn lemma_lookup_remove(m: TagRegistryView, s: Seq<char>, k: Seq<char>)
    requires
        registry_wf(m),
        lookup_info(m, s) is Some,
    ensures
        ({
            let i = index_of_str(m.keys, s);
            let r = TagRegistryView { keys: m.keys.remove(i), infos: m.infos.remove(i), ..m };
            &&& r.keys.len() == r.infos.len()
            &&& r.keys.no_duplicates()
            &&& lookup_info(r, k) == if k == s { None } else { lookup_info(m, k) }
        }),
{
    let i = index_of_str(m.keys, s);
    lemma_index_of_str(m.keys, s);
    lemma_index_of_str(m.keys, k);
    lemma_remove_no_duplicates(m.keys, i);
    let r = TagRegistryView { keys: m.keys.remove(i), infos: m.infos.remove(i), ..m };
    lemma_index_of_str(r.keys, k);
    if k != s {
        let j = index_of_str(m.keys, k);
        if j >= 0 {
            let j2 = if j < i { j } else { j - 1 };
            assert(r.keys[j2] == k);
            assert(r.infos[j2] == m.infos[j]);
        } else {
            if r.keys.contains(k) {
                let j2 = choose|j2: int| 0 <= j2 < r.keys.len() && r.keys[j2] == k;
                let j3 = if j2 < i { j2 } else { j2 + 1 };
                assert(m.keys[j3] == k);
            }
        }
    }
}

/// Merging a registered tag into another unregisters the merged tag and
/// keeps the metadata of every other path.
pub proof fn law_merge_frame(m: TagRegistryView, s: Seq<char>, k: Seq<char>)
    requires
        registry_wf(m),
        lookup_info(m, s) is Some,
    ensures
        lookup_info(merge_spec(m, s), k) == if k == s { None } else { lookup_info(m, k) },
{
    lemma_lookup_remove(m, s, k);
}

/// Renaming a registered tag moves its metadata to the new path (with the
/// new path as its tag), unregisters the old path, and keeps every other
/// path's metadata.
pub proof fn law_rename_frame(m: TagRegistryView, o: Seq<char>, n: Seq<char>, k: Seq<char>)
    requires
        registry_wf(m),
        lookup_info(m, o) is Some,
    ensures
        lookup_info(rename_spec(m, o, n), k) == if k == n {
            Some(TagInfoView { tag: n, ..lookup_info(m, o)->0 })
        } else if k == o {
            None
        } else {
            lookup_info(m, k)
        },
{
    let i = index_of_str(m.keys, o);
    let info = TagInfoView { tag: n, ..m.infos[i] };
    let m1 = TagRegistryView { keys: m.keys.remove(i), infos: m.infos.remove(i), ..m };
    lemma_lookup_remove(m, o, k);
    lemma_lookup_put(m1, n, info, k);
}

proof fn lemma_lookup_filtered(ks: Seq<Seq<char>>, vs: Seq<TagInfoView>, t: Seq<char>, k: Seq<char>)
    requires
        ks.len() == vs.len(),
    ensures
        ({
            let f = filter_pairs(ks, vs, key_keep(t));
            let lf = TagRegistryView { keys: f.0, infos: f.1, alias_keys: Seq::empty(), alias_vals: Seq::empty() };
            let lm = TagRegistryView { keys: ks, infos: vs, alias_keys: Seq::empty(), alias_vals: Seq::empty() };
            &&& f.0.len() == f.1.len()
            &&& lookup_info(lf, k) == if in_subtree(k, t) { None } else { lookup_info(lm, k) }
        }),
    decreases ks.len(),
{
    if ks.len() > 0 {
        lemma_lookup_filtered(ks.drop_last(), vs.drop_last(), t, k);
        let r = filter_pairs(ks.drop_last(), vs.drop_last(), key_keep(t));
        if !in_subtree(ks.last(), t) {
            assert(r.0.push(ks.last()).drop_last() =~= r.0);
            assert(r.1.push(vs.last())[r.1.len() as int] == vs.last());
            lemma_index_of_str(r.0, k);
            let j = index_of_str(r.0, k);
            if j >= 0 && ks.last() != k {
                assert(r.1.push(vs.last())[j] == r.1[j]);
            }
        }
        lemma_index_of_str(ks.drop_last(), k);
        let j = index_of_str(ks.drop_last(), k);
        if j >= 0 && ks.last() != k {
            assert(vs[j] == vs.drop_last()[j]);
        }
    }
}

/// Removing a tag unregisters it and everything below it, and keeps the
/// metadata of every other path.
pub proof fn law_remove_frame(m: TagRegistryView, t: Seq<char>, k: Seq<char>)
    requires
        m.keys.len() == m.infos.len(),
    ensures
        lookup_info(remove_spec(m, t), k) == if in_subtree(k, t) { None } else { lookup_info(m, k) },
{
    lemma_lookup_filtered(m.keys, m.infos, t, k);
}

/// The tags a query over the registry returns (`root_tags`, `children_of`,
/// `descendants_of`) are exactly the registered metadata that satisfy its
/// condition, in storage order.
pub proof fn law_infos_where_members(infos: Seq<TagInfoView>, p: spec_fn(TagInfoView) -> bool, x: TagInfoView)
    ensures
        infos_where(infos, p).contains(x) <==> infos.contains(x) && p(x),
    decreases infos.len(),
{
    if infos.len() > 0 {
        let d = infos.drop_last();
        let l = infos.last();
        let rest = infos_where(d, p);
        law_infos_where_members(d, p, x);
        assert(infos =~= d.push(l));
        lemma_push_contains(d, l, x);
        lemma_push_contains(rest, l, x);
    }
}

proof fn lemma_push_contains<A>(s: Seq<A>, a: A, x: A)
    ensures
        s.push(a).contains(x) <==> s.contains(x) || x == a,
{
    if s.contains(x) {
        let j = choose|j: int| 0 <= j < s.len() && s[j] == x;
        assert(s.push(a)[j] == x);
    }
    if x == a {
        assert(s.push(a)[s.len() as int] == x);
    }
    if s.push(a).contains(x) && x != a {
        let j = choose|j: int| 0 <= j < s.push(a).len() && s.push(a)[j] == x;
        assert(s[j] == x);
    }
}

/// After an alias is defined for the lower-cased key `k`, every input whose
/// lower-cased form is `k` resolves through it (so every case variant of the
/// shorthand does), every other input resolves as before, and no tag is
/// registered.
pub proof fn law_alias_frame(m: TagRegistryView, k: Seq<char>, v: Seq<char>, x: Seq<char>)
    requires
        m.alias_keys.len() == m.alias_vals.len(),
    ensures
        lookup_alias(crate::tags::aliased(m, k, v), lowercase(x)) == if lowercase(x) == k {
            Some(v)
        } else {
            lookup_alias(m, lowercase(x))
        },
        crate::tags::aliased(m, k, v).keys == m.keys,
        crate::tags::aliased(m, k, v).infos == m.infos,
{
    let j = lowercase(x);
    lemma_index_of_str(m.alias_keys, k);
    lemma_index_of_str(m.alias_keys, j);
    let i = index_of_str(m.alias_keys, k);
    if i < 0 {
        let ks = m.alias_keys.push(k);
        assert(ks.drop_last() =~= m.alias_keys);
        let ij = index_of_str(m.alias_keys, j);
        if j != k && ij >= 0 {
            assert(m.alias_vals.push(v)[ij] == m.alias_vals[ij]);
        }
    } else if j != k {
        let ij = index_of_str(m.alias_keys, j);
        if ij >= 0 {
            assert(ij != i);
        }
    }
}

// ── Themes ─────────────────────────────────────────────────────

/// A theme's CSS variables do not depend on its name or its custom CSS.
pub proof fn law_css_variables_ignore_name(t: crate::theme::ThemeView, name: Seq<char>, custom: Seq<char>)
    ensures
        crate::theme::css_variables_spec(crate::theme::ThemeView { name: name, custom_css: custom, ..t })
            == crate::theme::css_variables_spec(t),
{
}

// ── Tag paths ──────────────────────────────────────────────────

/// No `/` directly follows another.
pub open spec fn no_double_slash(s: Seq<char>) -> bool {
    forall|i: int| 0 <= i < s.len() - 1 ==> !(#[trigger] s[i] == '/' && s[i + 1] == '/')
}

/// No run of three `/`.
pub open spec fn no_triple_slash(s: Seq<char>) -> bool {
    forall|i: int| 0 <= i < s.len() - 2 ==> !(#[trigger] s[i] == '/' && s[i + 1] == '/' && s[i + 2] == '/')
}

/// A path in normal form, as far as slashes go: none at either end and no
/// two in a row.
pub open spec fn slashes_normal(s: Seq<char>) -> bool {
    &&& s.len() > 0 ==> s[0] != '/' && s.last() != '/'
    &&& no_double_slash(s)
}

proof fn lemma_trim_start_triple(s: Seq<char>)
    requires
        no_triple_slash(s),
    ensures
        no_triple_slash(crate::tags::trim_start_slashes(s)),
        crate::tags::trim_start_slashes(s).len() > 0 ==> crate::tags::trim_start_slashes(s)[0] != '/',
    decreases s.len(),
{
    if s.len() > 0 && s[0] == '/' {
        let d = s.drop_first();
        assert forall|i: int| 0 <= i < d.len() - 2 implies !(#[trigger] d[i] == '/' && d[i + 1] == '/' && d[i + 2] == '/') by {
            assert(d[i] == s[i + 1] && d[i + 1] == s[i + 2] && d[i + 2] == s[i + 3]);
        }
        lemma_trim_start_triple(d);
    }
}

proof fn lemma_trim_end_triple(s: Seq<char>)
    requires
        no_triple_slash(s),
        s.len() > 0 ==> s[0] != '/',
    ensures
        no_triple_slash(crate::tags::trim_end_slashes(s)),
        crate::tags::trim_end_slashes(s).len() > 0 ==> crate::tags::trim_end_slashes(s)[0] != '/'
            && crate::tags::trim_end_slashes(s).last() != '/',
    decreases s.len(),
{
    if s.len() > 0 && s.last() == '/' {
        let d = s.drop_last();
        assert forall|i: int| 0 <= i < d.len() - 2 implies !(#[trigger] d[i] == '/' && d[i + 1] == '/' && d[i + 2] == '/') by {
            assert(d[i] == s[i] && d[i + 1] == s[i + 1] && d[i + 2] == s[i + 2]);
        }
        if d.len() > 0 {
            assert(d[0] == s[0]);
        }
        lemma_trim_end_triple(d);
    }
}

proof fn lemma_collapse_shape(s: Seq<char>)
    requires
        no_triple_slash(s),
    ensures
        no_double_slash(crate::tags::collapse_double_slashes(s)),
        s.len() > 0 ==> crate::tags::collapse_double_slashes(s).len() > 0
            && crate::tags::collapse_double_slashes(s)[0] == s[0]
            && crate::tags::collapse_double_slashes(s).last() == s.last(),
    decreases s.len(),
{
    let c = crate::tags::collapse_double_slashes(s);
    if s.len() >= 2 {
        let k: int = if s[0] == '/' && s[1] == '/' { 2 } else { 1 };
        let t = s.skip(k);
        assert forall|i: int| 0 <= i < t.len() - 2 implies !(#[trigger] t[i] == '/' && t[i + 1] == '/' && t[i + 2] == '/') by {
            assert(t[i] == s[i + k] && t[i + 1] == s[i + k + 1] && t[i + 2] == s[i + k + 2]);
        }
        lemma_collapse_shape(t);
        let ct = crate::tags::collapse_double_slashes(t);
        let head: Seq<char> = if k == 2 { seq!['/'] } else { seq![s[0]] };
        assert(c == head + ct);
        if t.len() > 0 {
            assert(t[0] == s[k]);
            assert(t.last() == s.last());
            if k == 2 {
                assert(!(s[0] == '/' && s[1] == '/' && s[2] == '/'));
            }
        }
        assert forall|i: int| 0 <= i < c.len() - 1 implies !(#[trigger] c[i] == '/' && c[i + 1] == '/') by {
            if i > 0 {
                assert(c[i] == ct[i - 1] && c[i + 1] == ct[i]);
            } else {
                assert(c[1] == ct[0]);
            }
        }
        if t.len() == 0 {
            assert(s.last() == s[1]);
        }
    }
}

proof fn lemma_collapse_fixed(s: Seq<char>)
    requires
        no_double_slash(s),
    ensures
        crate::tags::collapse_double_slashes(s) == s,
    decreases s.len(),
{
    if s.len() >= 2 {
        let t = s.skip(1);
        assert(!(s[0] == '/' && s[1] == '/'));
        assert forall|i: int| 0 <= i < t.len() - 1 implies !(#[trigger] t[i] == '/' && t[i + 1] == '/') by {
            assert(t[i] == s[i + 1] && t[i + 1] == s[i + 2]);
        }
        lemma_collapse_fixed(t);
        assert(seq![s[0]] + t =~= s);
    }
}

/// A lower-case path with no slash at either end and no two in a row is its
/// own normal form.
pub proof fn law_normal_path_fixed(t: Seq<char>)
    requires
        slashes_normal(t),
        lowercase(t) == t,
    ensures
        normalize_tag_path(t) == t,
{
    assert(crate::tags::trim_start_slashes(t) == t);
    assert(crate::tags::trim_end_slashes(t) == t);
    lemma_collapse_fixed(t);
}

/// A normalized path has no slash at either end and no two in a row, and
/// normalizing it again changes nothing, wherever the lower-cased input has
/// no run of three slashes (`a///b` becomes `a//b`, which a second pass
/// changes again) and lower-casing the result changes nothing.
pub proof fn law_normalize_idempotent(s: Seq<char>)
    requires
        no_triple_slash(lowercase(s)),
        lowercase(normalize_tag_path(s)) == normalize_tag_path(s),
    ensures
        slashes_normal(normalize_tag_path(s)),
        normalize_tag_path(normalize_tag_path(s)) == normalize_tag_path(s),
{
    let l = lowercase(s);
    lemma_trim_start_triple(l);
    let a = crate::tags::trim_start_slashes(l);
    lemma_trim_end_triple(a);
    let b = crate::tags::trim_end_slashes(a);
    lemma_collapse_shape(b);
    law_normal_path_fixed(normalize_tag_path(s));
}

/// The tags of a run of metadata.
pub open spec fn info_tags(infos: Seq<TagInfoView>) -> Seq<Seq<char>> {
    infos.map_values(|i: TagInfoView| i.tag)
}

proof fn lemma_infos_where_distinct(infos: Seq<TagInfoView>, p: spec_fn(TagInfoView) -> bool)
    requires
        info_tags(infos).no_duplicates(),
    ensures
        info_tags(infos_where(infos, p)).no_duplicates(),
    decreases infos.len(),
{
    if infos.len() > 0 {
        let d = infos.drop_last();
        let l = infos.last();
        assert(info_tags(d).no_duplicates()) by {
            assert forall|i: int, j: int| 0 <= i < info_tags(d).len() && 0 <= j < info_tags(d).len() && i != j
                implies info_tags(d)[i] != info_tags(d)[j] by {
                assert(info_tags(d)[i] == info_tags(infos)[i] && info_tags(d)[j] == info_tags(infos)[j]);
            }
        }
        lemma_infos_where_distinct(d, p);
        let rest = infos_where(d, p);
        if p(l) {
            let r = rest.push(l);
            assert forall|i: int, j: int| 0 <= i < info_tags(r).len() && 0 <= j < info_tags(r).len() && i != j
                implies info_tags(r)[i] != info_tags(r)[j] by {
                if i < rest.len() && j < rest.len() {
                    assert(info_tags(r)[i] == info_tags(rest)[i] && info_tags(r)[j] == info_tags(rest)[j]);
                } else {
                    let k = if i < rest.len() { i } else { j };
                    assert(k < rest.len());
                    law_infos_where_members(d, p, rest[k]);
                    assert(rest.contains(rest[k]));
                    let m = choose|m: int| 0 <= m < d.len() && d[m] == rest[k];
                    assert(info_tags(infos)[m] == rest[k].tag);
                    assert(info_tags(infos)[infos.len() - 1] == l.tag);
                    assert(info_tags(r)[k] == rest[k].tag);
                }
            }
        }
    }
}

/// On a registry whose metadata carry their own paths as tags (which every
/// operation keeps, and only `info_mut` lets a caller break), `root_tags`,
/// `children_of` and `descendants_of` never list a tag twice.
pub proof fn law_queries_list_tags_once(m: TagRegistryView, p: spec_fn(TagInfoView) -> bool)
    requires
        registry_wf(m),
        crate::tags::tags_are_keys(m),
    ensures
        info_tags(infos_where(m.infos, p)).no_duplicates(),
{
    assert(info_tags(m.infos) =~= m.keys);
    lemma_infos_where_distinct(m.infos, p);
}

// ── Registering tags from packs and extensions ─────────────────

proof fn lemma_pack_tag_tags(m: TagRegistryView, t: crate::pack::PackTag)
    requires
        crate::tags::tags_are_keys(m),
    ensures
        crate::tags::tags_are_keys(crate::pack::register_pack_tag(m, t)),
{
    let path = normalize_tag_path(t.path@);
    crate::tags::lemma_register_tags(m, path, t.name@, t.description@);
    let m1 = register_spec(m, path, t.name@, t.description@);
    lemma_index_of_str(m1.keys, path);
    let i = index_of_str(m1.keys, path);
    if i >= 0 {
        assert(m1.infos[i].tag == m1.keys[i]);
    }
}

proof fn lemma_pack_tags_tags(m: TagRegistryView, tags: Seq<crate::pack::PackTag>)
    requires
        crate::tags::tags_are_keys(m),
    ensures
        crate::tags::tags_are_keys(crate::pack::register_pack_tags(m, tags)),
    decreases tags.len(),
{
    if tags.len() > 0 {
        lemma_pack_tags_tags(m, tags.drop_last());
        lemma_pack_tag_tags(crate::pack::register_pack_tags(m, tags.drop_last()), tags.last());
    }
}

/// Registering the tags of packs keeps every metadata under its own path.
pub proof fn law_packs_keep_tags_as_keys(m: TagRegistryView, packs: Seq<crate::pack::LoadedPack>)
    requires
        crate::tags::tags_are_keys(m),
    ensures
        crate::tags::tags_are_keys(crate::pack::packs_registered(m, packs)),
    decreases packs.len(),
{
    if packs.len() > 0 {
        law_packs_keep_tags_as_keys(m, packs.drop_last());
        lemma_pack_tags_tags(crate::pack::packs_registered(m, packs.drop_last()), packs.last().def.tags@);
    }
}

proof fn lemma_tag_def_tags(m: TagRegistryView, d: ExtTagDef)
    requires
        crate::tags::tags_are_keys(m),
    ensures
        crate::tags::tags_are_keys(register_tag_def(m, d)),
{
    let path = normalize_tag_path(d.path@);
    crate::tags::lemma_register_tags(m, path, d.name@, Seq::empty());
    let m1 = register_spec(m, path, d.name@, Seq::empty());
    lemma_index_of_str(m1.keys, path);
    let i = index_of_str(m1.keys, path);
    if i >= 0 {
        assert(m1.infos[i].tag == m1.keys[i]);
    }
}

proof fn lemma_tag_defs_tags(m: TagRegistryView, defs: Seq<ExtTagDef>)
    requires
        crate::tags::tags_are_keys(m),
    ensures
        crate::tags::tags_are_keys(register_tag_defs(m, defs)),
    decreases defs.len(),
{
    if defs.len() > 0 {
        lemma_tag_defs_tags(m, defs.drop_last());
        lemma_tag_def_tags(register_tag_defs(m, defs.drop_last()), defs.last());
    }
}

/// Registering the tags of extensions keeps every metadata under its own path.
pub proof fn law_ext_tags_keep_tags_as_keys(m: TagRegistryView, exts: Seq<LoadedExtension>)
    requires
        crate::tags::tags_are_keys(m),
    ensures
        crate::tags::tags_are_keys(crate::extension::register_ext_tags(m, exts)),
    decreases exts.len(),
{
    if exts.len() > 0 {
        law_ext_tags_keep_tags_as_keys(m, exts.drop_last());
        lemma_tag_defs_tags(crate::extension::register_ext_tags(m, exts.drop_last()), exts.last().manifest.tags@);
    }
}

// ── Filters ────────────────────────────────────────────────────

/// No tag is both included and excluded.
pub open spec fn filter_disjoint(f: FilterStateView) -> bool {
    forall|x: Seq<char>| !(#[trigger] f.included.contains(x) && f.excluded.contains(x))
}

proof fn lemma_remove_subset(s: Seq<Seq<char>>, i: int, x: Seq<char>)
    requires
        0 <= i < s.len(),
    ensures
        s.remove(i).contains(x) ==> s.contains(x),
{
    if s.remove(i).contains(x) {
        let j = choose|j: int| 0 <= j < s.remove(i).len() && s.remove(i)[j] == x;
        let j2 = if j < i { j } else { j + 1 };
        assert(s[j2] == x);
    }
}

proof fn lemma_drop_str_contains(s: Seq<Seq<char>>, tag: Seq<char>, x: Seq<char>)
    ensures
        drop_keyed(s, str_key(), tag).contains(x) ==> s.contains(x) && x != tag,
{
    lemma_drop_keyed_subset(s, str_key(), tag, x);
    lemma_drop_keyed_none(s, str_key(), tag);
    if drop_keyed(s, str_key(), tag).contains(x) {
        let j = choose|j: int| 0 <= j < drop_keyed(s, str_key(), tag).len() && drop_keyed(s, str_key(), tag)[j] == x;
        assert(str_key()(drop_keyed(s, str_key(), tag)[j]) != tag);
    }
}

/// Toggling a tag as included or as excluded never leaves a tag in both
/// lists, if none was.
pub proof fn law_toggles_keep_disjoint(f: FilterStateView, tag: Seq<char>)
    requires
        filter_disjoint(f),
    ensures
        filter_disjoint(toggled_include(f, tag)),
        filter_disjoint(toggled_exclude(f, tag)),
{
    lemma_first_keyed_bounds(f.included, str_key(), tag);
    lemma_first_keyed_bounds(f.excluded, str_key(), tag);
    let ii = first_keyed(f.included, str_key(), tag);
    let ie = first_keyed(f.excluded, str_key(), tag);
    assert forall|x: Seq<char>| !(#[trigger] toggled_include(f, tag).included.contains(x) && toggled_include(f, tag).excluded.contains(x)) by {
        if ii >= 0 {
            lemma_remove_subset(f.included, ii, x);
        } else {
            lemma_push_contains(f.included, tag, x);
            lemma_drop_str_contains(f.excluded, tag, x);
        }
        assert(!(f.included.contains(x) && f.excluded.contains(x)));
    }
    assert forall|x: Seq<char>| !(#[trigger] toggled_exclude(f, tag).included.contains(x) && toggled_exclude(f, tag).excluded.contains(x)) by {
        if ie >= 0 {
            lemma_remove_subset(f.excluded, ie, x);
        } else {
            lemma_push_contains(f.excluded, tag, x);
            lemma_drop_str_contains(f.included, tag, x);
        }
        assert(!(f.included.contains(x) && f.excluded.contains(x)));
    }
}

// ── Extension item layout ──────────────────────────────────────

/// How many items the first `n` commands give: one each, plus one per
/// static item.
pub open spec fn item_count(cmds: Seq<CommandDef>, n: int) -> int
    decreases n,
{
    if n <= 0 {
        0
    } else {
        item_count(cmds, n - 1) + 1 + cmds[n - 1].items@.len()
    }
}

proof fn lemma_upto_len(e: LoadedExtension, n: int)
    requires
        0 <= n <= e.manifest.commands@.len(),
    ensures
        extension_items_upto(e, n).len() == item_count(e.manifest.commands@, n),
    decreases n,
{
    if n > 0 {
        lemma_upto_len(e, n - 1);
    }
}

proof fn lemma_upto_prefix(e: LoadedExtension, m: int, n: int)
    requires
        0 <= m <= n <= e.manifest.commands@.len(),
    ensures
        forall|i: int| 0 <= i < extension_items_upto(e, m).len() ==> #[trigger] extension_items_upto(e, n)[i]
            == extension_items_upto(e, m)[i],
    decreases n,
{
    if m < n {
        lemma_upto_prefix(e, m, n - 1);
        lemma_upto_len(e, m);
        lemma_upto_len(e, n - 1);
        let a = extension_items_upto(e, n - 1);
        let b = command_items(e, e.manifest.commands@[n - 1]);
        assert forall|i: int| 0 <= i < extension_items_upto(e, m).len() implies #[trigger] extension_items_upto(e, n)[i]
            == extension_items_upto(e, m)[i] by {
            assert(item_count(e.manifest.commands@, m) <= item_count(e.manifest.commands@, n - 1)) by {
                lemma_item_count_mono(e.manifest.commands@, m, n - 1);
            }
            assert((a + b)[i] == a[i]);
        }
    }
}

proof fn lemma_item_count_mono(cmds: Seq<CommandDef>, m: int, n: int)
    requires
        0 <= m <= n,
    ensures
        item_count(cmds, m) <= item_count(cmds, n),
    decreases n,
{
    if m < n {
        lemma_item_count_mono(cmds, m, n - 1);
    }
}

/// An extension's items come command by command: `item_count` of them in
/// all; command `k`'s own item (id `<extension>/<command>`, its title first
/// among the search fields) stands at `item_count(commands, k)`, followed by
/// one item per static item `j` (id `<extension>/<command>/<item id>`).
pub proof fn law_extension_items_layout(e: LoadedExtension, k: int)
    requires
        0 <= k < e.manifest.commands@.len(),
    ensures
        ({
            let cmds = e.manifest.commands@;
            let items = extension_items(e);
            let base = item_count(cmds, k);
            let name = e.manifest.extension.name@;
            &&& items.len() == item_count(cmds, cmds.len() as int)
            &&& items[base].id == name + "/"@ + cmds[k].name@
            &&& items[base].search_fields[0] == cmds[k].title@
            &&& forall|j: int| 0 <= j < cmds[k].items@.len() ==> (#[trigger] items[base + 1 + j]).id == name + "/"@
                + cmds[k].name@ + "/"@ + cmds[k].items@[j].id@
        }),
{
    let cmds = e.manifest.commands@;
    let n = cmds.len() as int;
    lemma_upto_len(e, n);
    lemma_upto_len(e, k);
    lemma_upto_len(e, k + 1);
    lemma_upto_prefix(e, k + 1, n);
    let a = extension_items_upto(e, k);
    let b = command_items(e, cmds[k]);
    let base = item_count(cmds, k);
    assert(extension_items_upto(e, k + 1) == a + b);
    assert((a + b)[base] == b[0]);
    assert forall|j: int| 0 <= j < cmds[k].items@.len() implies (#[trigger] extension_items(e)[base + 1 + j]).id
        == e.manifest.extension.name@ + "/"@ + cmds[k].name@ + "/"@ + cmds[k].items@[j].id@ by {
        assert((a + b)[base + 1 + j] == b[1 + j]);
        assert(extension_items(e)[base + 1 + j] == extension_items_upto(e, k + 1)[base + 1 + j]);
    }
}

// ── Which segments are highlighted ─────────────────────────────

/// The texts of the highlighted segments, in order.
pub open spec fn marked_texts(segs: Seq<TextSegmentView>) -> Seq<Seq<char>>
    decreases segs.len(),
{
    if segs.len() == 0 {
        Seq::empty()
    } else if segs.last().highlighted {
        marked_texts(segs.drop_last()).push(segs.last().text)
    } else {
        marked_texts(segs.drop_last())
    }
}

/// The character at each position inside the text, in the order given.
pub open spec fn chars_at(text: Seq<char>, positions: Seq<u32>) -> Seq<Seq<char>>
    decreases positions.len(),
{
    if positions.len() == 0 {
        Seq::empty()
    } else if (positions.last() as int) < text.len() {
        chars_at(text, positions.drop_last()).push(text.subrange(positions.last() as int, positions.last() + 1))
    } else {
        chars_at(text, positions.drop_last())
    }
}

/// No two plain segments stand next to each other.
pub open spec fn no_adjacent_plain(segs: Seq<TextSegmentView>) -> bool {
    forall|i: int| 0 <= i < segs.len() - 1 ==> (#[trigger] segs[i]).highlighted || segs[i + 1].highlighted
}

proof fn lemma_highlight_upto_marks(c: Seq<char>, p: Seq<u32>)
    ensures
        marked_texts(highlight_upto(c, p).1) == chars_at(c, p),
        highlight_upto(c, p).1.len() == 0 || highlight_upto(c, p).1.last().highlighted,
        no_adjacent_plain(highlight_upto(c, p).1),
    decreases p.len(),
{
    if p.len() > 0 {
        lemma_highlight_upto_marks(c, p.drop_last());
        let (last, segs) = highlight_upto(c, p.drop_last());
        let pos = p.last() as int;
        if pos < c.len() {
            let segs2 = if pos > last {
                segs.push(TextSegmentView { text: c.subrange(last, pos), highlighted: false })
            } else {
                segs
            };
            let segs3 = segs2.push(TextSegmentView { text: c.subrange(pos, pos + 1), highlighted: true });
            assert(segs3.drop_last() =~= segs2);
            if pos > last {
                assert(segs2.drop_last() =~= segs);
            }
            assert(marked_texts(segs2) == marked_texts(segs));
            assert forall|i: int| 0 <= i < segs3.len() - 1 implies (#[trigger] segs3[i]).highlighted || segs3[i + 1].highlighted by {
                if i + 1 == segs3.len() - 1 {
                } else if pos > last && i + 1 == segs2.len() - 1 {
                    assert(segs3[i] == segs[i]);
                } else {
                    assert(segs3[i] == segs[i] && segs3[i + 1] == segs[i + 1]);
                }
            }
        }
    }
}

/// The highlighted segments of a label are exactly its characters at the
/// matched positions inside it, one each, in the order of the positions;
/// no two plain segments stand next to each other.
pub proof fn law_highlight_marks_positions(text: Seq<char>, positions: Seq<u32>)
    ensures
        marked_texts(highlight_spec(text, positions)) == chars_at(text, positions),
        no_adjacent_plain(highlight_spec(text, positions)),
{
    if positions.len() == 0 {
        let r = highlight_spec(text, positions);
        assert(r.drop_last() =~= Seq::<TextSegmentView>::empty());
        assert(marked_texts(r.drop_last()) =~= Seq::<Seq<char>>::empty());
    } else {
        lemma_highlight_upto_marks(text, positions);
        let (last, segs) = highlight_upto(text, positions);
        if last < text.len() {
            let r = segs.push(TextSegmentView { text: text.subrange(last, text.len() as int), highlighted: false });
            assert(r.drop_last() =~= segs);
            assert forall|i: int| 0 <= i < r.len() - 1 implies (#[trigger] r[i]).highlighted || r[i + 1].highlighted by {
                assert(r[i] == segs[i]);
                if i + 1 < segs.len() {
                    assert(r[i + 1] == segs[i + 1]);
                }
            }
        }
    }
}

// ── Aliases under edits ────────────────────────────────────────

/// The value stored under `k` in parallel key and value lists.
pub open spec fn pair_lookup(ks: Seq<Seq<char>>, vs: Seq<Seq<char>>, k: Seq<char>) -> Option<Seq<char>> {
    let i = index_of_str(ks, k);
    if i >= 0 {
        Some(vs[i])
    } else {
        None
    }
}

proof fn lemma_filter_pair_lookup(
    ks: Seq<Seq<char>>,
    vs: Seq<Seq<char>>,
    p: spec_fn(Seq<char>, Seq<char>) -> bool,
    k: Seq<char>,
)
    requires
        ks.len() == vs.len(),
        ks.no_duplicates(),
    ensures
        pair_lookup(filter_pairs(ks, vs, p).0, filter_pairs(ks, vs, p).1, k) == match pair_lookup(ks, vs, k) {
            Some(v) => if p(k, v) { Some(v) } else { None },
            None => None,
        },
        filter_pairs(ks, vs, p).0.len() == filter_pairs(ks, vs, p).1.len(),
    decreases ks.len(),
{
    if ks.len() > 0 {
        let dk = ks.drop_last();
        let dv = vs.drop_last();
        assert(dk.no_duplicates()) by {
            assert forall|a: int, b: int| 0 <= a < dk.len() && 0 <= b < dk.len() && a != b implies dk[a] != dk[b] by {
                assert(dk[a] == ks[a] && dk[b] == ks[b]);
            }
        }
        lemma_filter_pair_lookup(dk, dv, p, k);
        let r = filter_pairs(dk, dv, p);
        lemma_index_of_str(ks, k);
        lemma_index_of_str(dk, k);
        lemma_index_of_str(r.0, k);
        if ks.last() == k {
            assert(!dk.contains(k)) by {
                if dk.contains(k) {
                    let j = choose|j: int| 0 <= j < dk.len() && dk[j] == k;
                    assert(ks[j] == ks[ks.len() - 1]);
                }
            }
            if p(ks.last(), vs.last()) {
                assert(r.0.push(ks.last()).drop_last() =~= r.0);
                assert(r.1.push(vs.last())[r.1.len() as int] == vs.last());
            }
        } else {
            if p(ks.last(), vs.last()) {
                assert(r.0.push(ks.last()).drop_last() =~= r.0);
                let j = index_of_str(r.0, k);
                if j >= 0 {
                    assert(r.1.push(vs.last())[j] == r.1[j]);
                }
            }
            let j = index_of_str(dk, k);
            if j >= 0 {
                assert(vs[j] == dv[j]);
            }
        }
    }
}

/// After `merge_tag` merges `s` away, the aliases that stood for `s` are
/// gone and every other alias stands for what it did.
pub proof fn law_merge_aliases(m: TagRegistryView, s: Seq<char>, k: Seq<char>)
    requires
        registry_wf(m),
    ensures
        lookup_alias(merge_spec(m, s), k) == match lookup_alias(m, k) {
            Some(v) => if v == s { None } else { Some(v) },
            None => None,
        },
{
    lemma_filter_pair_lookup(m.alias_keys, m.alias_vals, crate::tags::alias_keep(s, false), k);
}

/// After `rename_tag` renames `o` to `n`, the aliases that stood for `o`
/// stand for `n`, and every other alias stands for what it did.
pub proof fn law_rename_aliases(m: TagRegistryView, o: Seq<char>, n: Seq<char>, k: Seq<char>)
    requires
        registry_wf(m),
    ensures
        lookup_alias(rename_spec(m, o, n), k) == match lookup_alias(m, k) {
            Some(v) => Some(if v == o { n } else { v }),
            None => None,
        },
{
    lemma_index_of_str(m.alias_keys, k);
}

/// After `remove_tag` removes the subtree of `t`, the aliases that stood for
/// a tag in it are gone and every other alias stands for what it did.
pub proof fn law_remove_aliases(m: TagRegistryView, t: Seq<char>, k: Seq<char>)
    requires
        registry_wf(m),
    ensures
        lookup_alias(remove_spec(m, t), k) == match lookup_alias(m, k) {
            Some(v) => if in_subtree(v, t) { None } else { Some(v) },
            None => None,
        },
{
    lemma_filter_pair_lookup(m.alias_keys, m.alias_vals, crate::tags::alias_keep(t, true), k);
}

// ── Calculator precedence ──────────────────────────────────────

/// A number token.
pub open spec fn num_tok(a: (usize, usize)) -> crate::calc::CalcToken {
    crate::calc::CalcToken::Num { start: a.0, end: a.1 }
}

/// The tree of a number.
pub open spec fn num_expr(a: (usize, usize)) -> crate::calc::CalcExpr {
    crate::calc::CalcExpr::Num { start: a.0, end: a.1 }
}

/// A product operator.
pub open spec fn is_product_op(op: char) -> bool {
    op == '*' || op == '/' || op == '%'
}

proof fn lemma_number_power(t: Seq<crate::calc::CalcToken>, pos: int)
    requires
        0 <= pos < t.len(),
        t[pos] is Num,
        pos + 1 == t.len() || t[pos + 1] != crate::calc::CalcToken::Op('^'),
    ensures
        crate::calc::power_spec(t, pos) == Some((
            crate::calc::CalcExpr::Num { start: t[pos]->start, end: t[pos]->end },
            pos + 1,
        )),
{
    assert(crate::calc::atom_spec(t, pos) == Some((
        crate::calc::CalcExpr::Num { start: t[pos]->start, end: t[pos]->end },
        pos + 1,
    )));
    assert(crate::calc::unary_spec(t, pos) == crate::calc::atom_spec(t, pos));
}

/// `^` binds tighter than `*`, `/` and `%`: for any numbers `a`, `b`, `c`,
/// the tokens of `a * b ^ c` (or with `/`, `%`) make one expression whose
/// right operand is the power `b ^ c`, using every token.
pub proof fn law_power_binds_tighter(op: char, a: (usize, usize), b: (usize, usize), c: (usize, usize))
    requires
        is_product_op(op),
    ensures
        crate::calc::expression_of(
            seq![num_tok(a), crate::calc::CalcToken::Op(op), num_tok(b), crate::calc::CalcToken::Op('^'), num_tok(c)],
        ) == Some(crate::calc::binary(
            op,
            num_expr(a),
            crate::calc::CalcExpr::Pow(Box::new(num_expr(b)), Box::new(num_expr(c))),
        )),
{
    let t = seq![num_tok(a), crate::calc::CalcToken::Op(op), num_tok(b), crate::calc::CalcToken::Op('^'), num_tok(c)];
    let pw = crate::calc::CalcExpr::Pow(Box::new(num_expr(b)), Box::new(num_expr(c)));
    let e = crate::calc::binary(op, num_expr(a), pw);
    lemma_number_power(t, 4);
    assert(crate::calc::unary_spec(t, 2) == Some((num_expr(b), 3int)));
    assert(crate::calc::power_spec(t, 2) == Some((pw, 5int)));
    lemma_number_power(t, 0);
    assert(crate::calc::mul_rest_spec(t, 5, e) == Some((e, 5int)));
    assert(crate::calc::mul_rest_spec(t, 1, num_expr(a)) == Some((e, 5int)));
    assert(crate::calc::multiplication_spec(t, 0) == Some((e, 5int)));
    assert(crate::calc::add_rest_spec(t, 5, e) == Some((e, 5int)));
    assert(crate::calc::addition_spec(t, 0) == Some((e, 5int)));
}

/// `^` binds tighter than a product on its left too: for any numbers, the
/// tokens of `b ^ c * a` make the product of the power `b ^ c` and `a`.
pub proof fn law_power_binds_tighter_left(op: char, a: (usize, usize), b: (usize, usize), c: (usize, usize))
    requires
        is_product_op(op),
    ensures
        crate::calc::expression_of(
            seq![num_tok(b), crate::calc::CalcToken::Op('^'), num_tok(c), crate::calc::CalcToken::Op(op), num_tok(a)],
        ) == Some(crate::calc::binary(
            op,
            crate::calc::CalcExpr::Pow(Box::new(num_expr(b)), Box::new(num_expr(c))),
            num_expr(a),
        )),
{
    let t = seq![num_tok(b), crate::calc::CalcToken::Op('^'), num_tok(c), crate::calc::CalcToken::Op(op), num_tok(a)];
    let pw = crate::calc::CalcExpr::Pow(Box::new(num_expr(b)), Box::new(num_expr(c)));
    let e = crate::calc::binary(op, pw, num_expr(a));
    lemma_number_power(t, 2);
    lemma_number_power(t, 4);
    assert(crate::calc::unary_spec(t, 0) == Some((num_expr(b), 1int)));
    assert(crate::calc::power_spec(t, 0) == Some((pw, 3int)));
    assert(crate::calc::mul_rest_spec(t, 5, e) == Some((e, 5int)));
    assert(crate::calc::mul_rest_spec(t, 3, pw) == Some((e, 5int)));
    assert(crate::calc::multiplication_spec(t, 0) == Some((e, 5int)));
    assert(crate::calc::add_rest_spec(t, 5, e) == Some((e, 5int)));
    assert(crate::calc::addition_spec(t, 0) == Some((e, 5int)));
}

/// `*`, `/` and `%` bind tighter than `+` and `-`: for any numbers, the
/// tokens of `a + b * c` make the sum of `a` and the product `b * c`.
pub proof fn law_product_binds_tighter(add: char, op: char, a: (usize, usize), b: (usize, usize), c: (usize, usize))
    requires
        add == '+' || add == '-',
        is_product_op(op),
    ensures
        crate::calc::expression_of(
            seq![num_tok(a), crate::calc::CalcToken::Op(add), num_tok(b), crate::calc::CalcToken::Op(op), num_tok(c)],
        ) == Some(crate::calc::binary(add, num_expr(a), crate::calc::binary(op, num_expr(b), num_expr(c)))),
{
    let t = seq![num_tok(a), crate::calc::CalcToken::Op(add), num_tok(b), crate::calc::CalcToken::Op(op), num_tok(c)];
    let m = crate::calc::binary(op, num_expr(b), num_expr(c));
    let e = crate::calc::binary(add, num_expr(a), m);
    lemma_number_power(t, 0);
    lemma_number_power(t, 2);
    lemma_number_power(t, 4);
    assert(crate::calc::mul_rest_spec(t, 1, num_expr(a)) == Some((num_expr(a), 1int)));
    assert(crate::calc::multiplication_spec(t, 0) == Some((num_expr(a), 1int)));
    assert(crate::calc::mul_rest_spec(t, 5, m) == Some((m, 5int)));
    assert(crate::calc::mul_rest_spec(t, 3, num_expr(b)) == Some((m, 5int)));
    assert(crate::calc::multiplication_spec(t, 2) == Some((m, 5int)));
    assert(crate::calc::add_rest_spec(t, 5, e) == Some((e, 5int)));
    assert(crate::calc::add_rest_spec(t, 1, num_expr(a)) == Some((e, 5int)));
    assert(crate::calc::addition_spec(t, 0) == Some((e, 5int)));
}

/// `^` groups to the right: for any numbers, the tokens of `a ^ b ^ c` make
/// `a ^ (b ^ c)`.
pub proof fn law_power_right_assoc(a: (usize, usize), b: (usize, usize), c: (usize, usize))
    ensures
        crate::calc::expression_of(
            seq![num_tok(a), crate::calc::CalcToken::Op('^'), num_tok(b), crate::calc::CalcToken::Op('^'), num_tok(c)],
        ) == Some(crate::calc::CalcExpr::Pow(
            Box::new(num_expr(a)),
            Box::new(crate::calc::CalcExpr::Pow(Box::new(num_expr(b)), Box::new(num_expr(c)))),
        )),
{
    let t = seq![num_tok(a), crate::calc::CalcToken::Op('^'), num_tok(b), crate::calc::CalcToken::Op('^'), num_tok(c)];
    let inner = crate::calc::CalcExpr::Pow(Box::new(num_expr(b)), Box::new(num_expr(c)));
    let e = crate::calc::CalcExpr::Pow(Box::new(num_expr(a)), Box::new(inner));
    lemma_number_power(t, 4);
    assert(crate::calc::unary_spec(t, 2) == Some((num_expr(b), 3int)));
    assert(crate::calc::power_spec(t, 2) == Some((inner, 5int)));
    assert(crate::calc::unary_spec(t, 0) == Some((num_expr(a), 1int)));
    assert(crate::calc::power_spec(t, 0) == Some((e, 5int)));
    assert(crate::calc::mul_rest_spec(t, 5, e) == Some((e, 5int)));
    assert(crate::calc::multiplication_spec(t, 0) == Some((e, 5int)));
    assert(crate::calc::add_rest_spec(t, 5, e) == Some((e, 5int)));
    assert(crate::calc::addition_spec(t, 0) == Some((e, 5int)));
}

// ── Inherited colors ───────────────────────────────────────────

/// The color registered for a path; empty when it has none or is not
/// registered.
pub open spec fn own_color(m: TagRegistryView, k: Seq<char>) -> Seq<char> {
    match lookup_info(m, k) {
        Some(i) => i.color,
        None => Seq::empty(),
    }
}

/// The color looked up along `cands` is the color of the first of them
/// that has one: if `cands[i]` has a color and none before it has, the
/// result is that color; if none has a color, the result is empty. For a
/// tag followed by its ancestors, this is `effective_color`: a tag without
/// its own color inherits that of its nearest ancestor with one.
pub proof fn law_first_color_is_nearest(m: TagRegistryView, cands: Seq<Seq<char>>, i: int)
    ensures
        0 <= i < cands.len() && own_color(m, cands[i]).len() > 0 && (forall|j: int|
            0 <= j < i ==> (#[trigger] own_color(m, cands[j])).len() == 0) ==> crate::tags::first_color(m, cands)
            == own_color(m, cands[i]),
        (forall|j: int| 0 <= j < cands.len() ==> (#[trigger] own_color(m, cands[j])).len() == 0)
            ==> crate::tags::first_color(m, cands).len() == 0,
    decreases cands.len(),
{
    if cands.len() > 0 {
        let d = cands.drop_first();
        law_first_color_is_nearest(m, d, i - 1);
        if 0 < i < cands.len() && own_color(m, cands[i]).len() > 0 && (forall|j: int|
            0 <= j < i ==> (#[trigger] own_color(m, cands[j])).len() == 0) {
            assert(own_color(m, cands[0]).len() == 0);
            assert(d[i - 1] == cands[i]);
            assert forall|j: int| 0 <= j < i - 1 implies (#[trigger] own_color(m, d[j])).len() == 0 by {
                assert(d[j] == cands[j + 1]);
            }
        }
        if forall|j: int| 0 <= j < cands.len() ==> (#[trigger] own_color(m, cands[j])).len() == 0 {
            assert(own_color(m, cands[0]).len() == 0);
            assert forall|j: int| 0 <= j < d.len() implies (#[trigger] own_color(m, d[j])).len() == 0 by {
                assert(d[j] == cands[j + 1]);
            }
        }
    }
}

// ── Hidden desktop entries ─────────────────────────────────────

/// The flags of the parse state that `Hidden` and `NoDisplay` set.
pub open spec fn flag_field(st: crate::desktop::DesktopParse, key: Seq<char>) -> bool {
    if key == "Hidden"@ {
        st.hidden
    } else {
        st.no_display
    }
}

/// The keys whose value is read as a flag.
pub open spec fn is_flag_key(key: Seq<char>) -> bool {
    key == "Hidden"@ || key == "NoDisplay"@
}

#[verifier::spinoff_prover]
proof fn lemma_desktop_flag_step(st: crate::desktop::DesktopParse, raw: Seq<char>, key: Seq<char>)
    requires
        is_flag_key(key),
    ensures
        flag_field(crate::desktop::parse_line(st, raw), key) == match line_sets(st, raw, key) {
            Some(v) => v == "true"@,
            None => flag_field(st, key),
        },
{
    reveal_strlit("Name");
    reveal_strlit("GenericName");
    reveal_strlit("Comment");
    reveal_strlit("Exec");
    reveal_strlit("Icon");
    reveal_strlit("Type");
    reveal_strlit("Hidden");
    reveal_strlit("NoDisplay");
    reveal_strlit("Keywords");
    reveal_strlit("Categories");
    assert("Hidden"@[0] != "NoDisplay"@[0]);
    assert("NoDisplay"@.len() != "Name"@.len());
    assert("NoDisplay"@ != "Name"@);
}

/// In `[Desktop Entry]`, the last `Hidden=` (or `NoDisplay=`) line decides
/// the flag: after the first `n` lines it is set exactly when that line's
/// value is `true`.
pub proof fn law_desktop_flag_last_value(lines: Seq<Seq<char>>, key: Seq<char>, n: int, j: int)
    requires
        is_flag_key(key),
        0 <= j < n <= lines.len(),
        line_sets(crate::desktop::parse_lines(lines, j), lines[j], key) is Some,
        forall|m: int| j < m < n ==> line_sets(crate::desktop::parse_lines(lines, m), #[trigger] lines[m], key) is None,
    ensures
        flag_field(crate::desktop::parse_lines(lines, n), key) == (line_sets(
            crate::desktop::parse_lines(lines, j),
            lines[j],
            key,
        )->0 == "true"@),
    decreases n,
{
    lemma_desktop_flag_step(crate::desktop::parse_lines(lines, n - 1), lines[n - 1], key);
    if n - 1 > j {
        assert(line_sets(crate::desktop::parse_lines(lines, n - 1), lines[n - 1], key) is None);
        law_desktop_flag_last_value(lines, key, n - 1, j);
    }
}

/// A flag that no line of `[Desktop Entry]` sets stays unset.
pub proof fn law_desktop_flag_unset(lines: Seq<Seq<char>>, key: Seq<char>, n: int)
    requires
        is_flag_key(key),
        0 <= n <= lines.len(),
        forall|m: int| 0 <= m < n ==> line_sets(crate::desktop::parse_lines(lines, m), #[trigger] lines[m], key) is None,
    ensures
        !flag_field(crate::desktop::parse_lines(lines, n), key),
    decreases n,
{
    if n > 0 {
        lemma_desktop_flag_step(crate::desktop::parse_lines(lines, n - 1), lines[n - 1], key);
        assert(line_sets(crate::desktop::parse_lines(lines, n - 1), lines[n - 1], key) is None);
        law_desktop_flag_unset(lines, key, n - 1);
    }
}

/// A parsed application is hidden exactly when `Hidden` or `NoDisplay`
/// ended up set in its `[Desktop Entry]` section.
pub proof fn law_desktop_entry_hidden(content: Seq<char>, id: Seq<char>)
    ensures
        crate::desktop::desktop_entry_spec(content, id) matches Some(e) ==> e.hidden == ({
            let lines = split_on_lines(content);
            let st = crate::desktop::parse_lines(lines, lines.len() as int);
            flag_field(st, "Hidden"@) || flag_field(st, "NoDisplay"@)
        }),
{
    reveal_strlit("Hidden");
    reveal_strlit("NoDisplay");
    assert("Hidden"@[0] != "NoDisplay"@[0]);
}

/// The lines of a text.
pub open spec fn split_on_lines(content: Seq<char>) -> Seq<Seq<char>> {
    crate::text::split_on(content, '\n')
}

// ── Calculator grouping ────────────────────────────────────────

/// Operators of one level group to the left: for any numbers, `a - b + c`
/// is `(a - b) + c` and `a / b * c` is `(a / b) * c`.
pub proof fn law_same_level_groups_left(op1: char, op2: char, a: (usize, usize), b: (usize, usize), c: (usize, usize))
    requires
        (op1 == '+' || op1 == '-') && (op2 == '+' || op2 == '-') || is_product_op(op1) && is_product_op(op2),
    ensures
        crate::calc::expression_of(
            seq![num_tok(a), crate::calc::CalcToken::Op(op1), num_tok(b), crate::calc::CalcToken::Op(op2), num_tok(c)],
        ) == Some(crate::calc::binary(op2, crate::calc::binary(op1, num_expr(a), num_expr(b)), num_expr(c))),
{
    let t = seq![num_tok(a), crate::calc::CalcToken::Op(op1), num_tok(b), crate::calc::CalcToken::Op(op2), num_tok(c)];
    let l = crate::calc::binary(op1, num_expr(a), num_expr(b));
    let e = crate::calc::binary(op2, l, num_expr(c));
    lemma_number_power(t, 0);
    lemma_number_power(t, 2);
    lemma_number_power(t, 4);
    if is_product_op(op1) {
        assert(crate::calc::mul_rest_spec(t, 5, e) == Some((e, 5int)));
        assert(crate::calc::mul_rest_spec(t, 3, l) == Some((e, 5int)));
        assert(crate::calc::mul_rest_spec(t, 1, num_expr(a)) == Some((e, 5int)));
        assert(crate::calc::multiplication_spec(t, 0) == Some((e, 5int)));
        assert(crate::calc::add_rest_spec(t, 5, e) == Some((e, 5int)));
    } else {
        assert(crate::calc::mul_rest_spec(t, 1, num_expr(a)) == Some((num_expr(a), 1int)));
        assert(crate::calc::multiplication_spec(t, 0) == Some((num_expr(a), 1int)));
        assert(crate::calc::mul_rest_spec(t, 3, num_expr(b)) == Some((num_expr(b), 3int)));
        assert(crate::calc::multiplication_spec(t, 2) == Some((num_expr(b), 3int)));
        assert(crate::calc::mul_rest_spec(t, 5, num_expr(c)) == Some((num_expr(c), 5int)));
        assert(crate::calc::multiplication_spec(t, 4) == Some((num_expr(c), 5int)));
        assert(crate::calc::add_rest_spec(t, 5, e) == Some((e, 5int)));
        assert(crate::calc::add_rest_spec(t, 3, l) == Some((e, 5int)));
        assert(crate::calc::add_rest_spec(t, 1, num_expr(a)) == Some((e, 5int)));
    }
    assert(crate::calc::addition_spec(t, 0) == Some((e, 5int)));
}

/// A leading minus negates the number before `^` applies: for any numbers,
/// `- a ^ b` is `(-a) ^ b`.
pub proof fn law_unary_minus_before_power(a: (usize, usize), b: (usize, usize))
    ensures
        crate::calc::expression_of(
            seq![crate::calc::CalcToken::Op('-'), num_tok(a), crate::calc::CalcToken::Op('^'), num_tok(b)],
        ) == Some(crate::calc::CalcExpr::Pow(
            Box::new(crate::calc::CalcExpr::Neg(Box::new(num_expr(a)))),
            Box::new(num_expr(b)),
        )),
{
    let t = seq![crate::calc::CalcToken::Op('-'), num_tok(a), crate::calc::CalcToken::Op('^'), num_tok(b)];
    let e = crate::calc::CalcExpr::Pow(Box::new(crate::calc::CalcExpr::Neg(Box::new(num_expr(a)))), Box::new(num_expr(b)));
    lemma_number_power(t, 3);
    assert(crate::calc::atom_spec(t, 1) == Some((num_expr(a), 2int)));
    assert(crate::calc::unary_spec(t, 0) == Some((crate::calc::CalcExpr::Neg(Box::new(num_expr(a))), 2int)));
    assert(crate::calc::power_spec(t, 0) == Some((e, 4int)));
    assert(crate::calc::mul_rest_spec(t, 4, e) == Some((e, 4int)));
    assert(crate::calc::multiplication_spec(t, 0) == Some((e, 4int)));
    assert(crate::calc::add_rest_spec(t, 4, e) == Some((e, 4int)));
    assert(crate::calc::addition_spec(t, 0) == Some((e, 4int)));
}

/// Parentheses group first: for any numbers, `( a + b ) * c` is the
/// product of the sum `a + b` and `c`.
pub proof fn law_parentheses_group(add: char, op: char, a: (usize, usize), b: (usize, usize), c: (usize, usize))
    requires
        add == '+' || add == '-',
        is_product_op(op),
    ensures
        crate::calc::expression_of(
            seq![
                crate::calc::CalcToken::LParen,
                num_tok(a),
                crate::calc::CalcToken::Op(add),
                num_tok(b),
                crate::calc::CalcToken::RParen,
                crate::calc::CalcToken::Op(op),
                num_tok(c)
            ],
        ) == Some(crate::calc::binary(op, crate::calc::binary(add, num_expr(a), num_expr(b)), num_expr(c))),
{
    let t = seq![
        crate::calc::CalcToken::LParen,
        num_tok(a),
        crate::calc::CalcToken::Op(add),
        num_tok(b),
        crate::calc::CalcToken::RParen,
        crate::calc::CalcToken::Op(op),
        num_tok(c)
    ];
    let sum = crate::calc::binary(add, num_expr(a), num_expr(b));
    let e = crate::calc::binary(op, sum, num_expr(c));
    lemma_number_power(t, 1);
    lemma_number_power(t, 3);
    lemma_number_power(t, 6);
    assert(crate::calc::mul_rest_spec(t, 2, num_expr(a)) == Some((num_expr(a), 2int)));
    assert(crate::calc::multiplication_spec(t, 1) == Some((num_expr(a), 2int)));
    assert(crate::calc::mul_rest_spec(t, 4, num_expr(b)) == Some((num_expr(b), 4int)));
    assert(crate::calc::multiplication_spec(t, 3) == Some((num_expr(b), 4int)));
    assert(crate::calc::add_rest_spec(t, 4, sum) == Some((sum, 4int)));
    assert(crate::calc::add_rest_spec(t, 2, num_expr(a)) == Some((sum, 4int)));
    assert(crate::calc::addition_spec(t, 1) == Some((sum, 4int)));
    assert(crate::calc::atom_spec(t, 0) == Some((sum, 5int)));
    assert(crate::calc::unary_spec(t, 0) == Some((sum, 5int)));
    assert(crate::calc::power_spec(t, 0) == Some((sum, 5int)));
    assert(crate::calc::mul_rest_spec(t, 7, e) == Some((e, 7int)));
    assert(crate::calc::mul_rest_spec(t, 5, sum) == Some((e, 7int)));
    assert(crate::calc::multiplication_spec(t, 0) == Some((e, 7int)));
    assert(crate::calc::add_rest_spec(t, 7, e) == Some((e, 7int)));
    assert(crate::calc::addition_spec(t, 0) == Some((e, 7int)));
}

// ── Listing applications ───────────────────────────────────────

proof fn lemma_visible_range(all: Seq<crate::desktop::DesktopEntry>, k: int)
    requires
        0 <= k <= all.len(),
    ensures
        forall|i: int| 0 <= i < crate::desktop::unique_visible_upto(all, k).len() ==> 0 <= #[trigger] crate::desktop::unique_visible_upto(all, k)[i] < k
            && !all[crate::desktop::unique_visible_upto(all, k)[i]].hidden,
    decreases k,
{
    if k > 0 {
        lemma_visible_range(all, k - 1);
        let p = crate::desktop::unique_visible_upto(all, k - 1);
        let q = crate::desktop::unique_visible_upto(all, k);
        assert forall|i: int| 0 <= i < q.len() implies 0 <= #[trigger] q[i] < k && !all[q[i]].hidden by {
            if i < p.len() {
                assert(q[i] == p[i]);
            }
        }
    }
}

proof fn lemma_visible_order(all: Seq<crate::desktop::DesktopEntry>, k: int)
    requires
        0 <= k <= all.len(),
    ensures
        forall|i: int, j: int| 0 <= i < j < crate::desktop::unique_visible_upto(all, k).len() ==> #[trigger] crate::desktop::unique_visible_upto(all, k)[i]
            < #[trigger] crate::desktop::unique_visible_upto(all, k)[j] && all[crate::desktop::unique_visible_upto(all, k)[i]].name@
            != all[crate::desktop::unique_visible_upto(all, k)[j]].name@,
    decreases k,
{
    if k > 0 {
        lemma_visible_order(all, k - 1);
        lemma_visible_range(all, k - 1);
        let p = crate::desktop::unique_visible_upto(all, k - 1);
        let q = crate::desktop::unique_visible_upto(all, k);
        let names = p.map_values(|j: int| all[j].name@);
        if q.len() > p.len() {
            assert(q == p.push(k - 1));
            assert forall|i: int, j: int| 0 <= i < j < q.len() implies #[trigger] q[i] < #[trigger] q[j]
                && all[q[i]].name@ != all[q[j]].name@ by {
                assert(q[i] == p[i]);
                if j < p.len() {
                    assert(q[j] == p[j]);
                } else {
                    assert(names[i] == all[p[i]].name@);
                    assert(names.contains(names[i]));
                }
            }
        }
    }
}

proof fn lemma_visible_complete(all: Seq<crate::desktop::DesktopEntry>, k: int)
    requires
        0 <= k <= all.len(),
    ensures
        forall|m: int| 0 <= m < k && !(#[trigger] all[m]).hidden ==> exists|i: int|
            0 <= i < crate::desktop::unique_visible_upto(all, k).len() && all[#[trigger] crate::desktop::unique_visible_upto(all, k)[i]].name@
                == all[m].name@,
    decreases k,
{
    if k > 0 {
        lemma_visible_complete(all, k - 1);
        let p = crate::desktop::unique_visible_upto(all, k - 1);
        let q = crate::desktop::unique_visible_upto(all, k);
        let names = p.map_values(|j: int| all[j].name@);
        assert forall|m: int| 0 <= m < k && !(#[trigger] all[m]).hidden implies exists|i: int|
            0 <= i < q.len() && all[#[trigger] q[i]].name@ == all[m].name@ by {
            if m < k - 1 {
                let i = choose|i: int| 0 <= i < p.len() && all[#[trigger] p[i]].name@ == all[m].name@;
                if q.len() > p.len() {
                    assert(q[i] == p[i]);
                }
            } else if q.len() > p.len() {
                assert(q[p.len() as int] == k - 1);
            } else {
                let i = choose|i: int| 0 <= i < names.len() && names[i] == all[m].name@;
                assert(all[p[i]].name@ == all[m].name@);
            }
        }
    }
}

/// What `visible_unique` keeps of the first `k` entries: positions in
/// increasing order, of entries that are not hidden, no two with the same
/// name; and every visible entry's name is among them.
pub proof fn law_visible_unique(all: Seq<crate::desktop::DesktopEntry>, k: int)
    requires
        0 <= k <= all.len(),
    ensures
        ({
            let pos = crate::desktop::unique_visible_upto(all, k);
            &&& forall|i: int| 0 <= i < pos.len() ==> 0 <= #[trigger] pos[i] < k && !all[pos[i]].hidden
            &&& forall|i: int, j: int| 0 <= i < j < pos.len() ==> #[trigger] pos[i] < #[trigger] pos[j]
                && all[pos[i]].name@ != all[pos[j]].name@
            &&& forall|m: int| 0 <= m < k && !(#[trigger] all[m]).hidden ==> exists|i: int|
                0 <= i < pos.len() && all[#[trigger] pos[i]].name@ == all[m].name@
        }),
{
    lemma_visible_range(all, k);
    lemma_visible_order(all, k);
    lemma_visible_complete(all, k);
}

/// A `.desktop` text describes an application exactly when, in its
/// `[Desktop Entry]` section, the last `Type=` line says `Application` and
/// the last `Name=` line gives a non-empty name.
pub proof fn law_desktop_entry_exists(content: Seq<char>, id: Seq<char>)
    ensures
        crate::desktop::desktop_entry_spec(content, id) is Some <==> ({
            let lines = split_on_lines(content);
            let st = crate::desktop::parse_lines(lines, lines.len() as int);
            text_field(st, "Type"@) == "Application"@ && text_field(st, "Name"@).len() > 0
        }),
{
    reveal_strlit("Name");
    reveal_strlit("GenericName");
    reveal_strlit("Comment");
    reveal_strlit("Exec");
    reveal_strlit("Icon");
    reveal_strlit("Type");
    assert("Type"@[0] != "Name"@[0] && "Type"@[0] != "GenericName"@[0] && "Type"@[0] != "Comment"@[0]);
    assert("Type"@[0] != "Exec"@[0] && "Type"@[0] != "Icon"@[0]);
}

// ── Tag path shape ─────────────────────────────────────────────

proof fn lemma_count_before_last(t: Seq<char>)
    ensures
        last_index_of(t, '/') < 0 ==> crate::text::count_char(t, '/') == 0,
        last_index_of(t, '/') >= 0 ==> crate::text::count_char(t, '/') == crate::text::count_char(
            t.take(last_index_of(t, '/')),
            '/',
        ) + 1,
    decreases t.len(),
{
    if t.len() > 0 {
        if t.last() == '/' {
            assert(t.drop_last() =~= t.take(t.len() - 1));
        } else {
            lemma_count_before_last(t.drop_last());
            let i = last_index_of(t.drop_last(), '/');
            if i >= 0 {
                lemma_last_index_of_bounds(t.drop_last(), '/');
                assert(t.drop_last().take(i) =~= t.take(i));
            }
        }
    }
}

/// A path has one ancestor per `/` in it; so a non-empty tag's depth is one
/// more than its number of ancestors (`audio/effects/reverb`: depth 3, two
/// ancestors).
pub proof fn law_depth_counts_ancestors(t: Seq<char>)
    ensures
        tag_ancestors(t).len() == crate::text::count_char(t, '/'),
        t.len() > 0 ==> crate::tags::tag_depth(t) == tag_ancestors(t).len() + 1,
    decreases t.len(),
{
    lemma_count_before_last(t);
    lemma_last_index_of_bounds(t, '/');
    if let Some(p) = tag_parent(t) {
        law_depth_counts_ancestors(p);
    }
}

/// A tag is its parent, a `/` and its leaf, and the leaf holds no `/`; a
/// tag without a parent is its own leaf.
pub proof fn law_parent_and_leaf(t: Seq<char>)
    ensures
        tag_parent(t) matches Some(p) ==> t == p + seq!['/'] + crate::tags::tag_leaf(t),
        !crate::tags::tag_leaf(t).contains('/'),
        tag_parent(t) is None ==> crate::tags::tag_leaf(t) == t,
{
    lemma_last_index_of_bounds(t, '/');
    let i = last_index_of(t, '/');
    let l = crate::tags::tag_leaf(t);
    if let Some(p) = tag_parent(t) {
        assert(t =~= p + seq!['/'] + l);
    } else {
        assert(l =~= t);
    }
    if l.contains('/') {
        let j = choose|j: int| 0 <= j < l.len() && l[j] == '/';
        assert(t[i + 1 + j] == '/');
    }
}

// ── Usage scores ───────────────────────────────────────────────

/// The longer ago an item was used, the lower (or equal) its usage score;
/// the more often, the higher (or equal); and an item used within the last
/// day scores ten per use, up to ten uses.
pub proof fn law_score_monotone(e: HistoryEntry, f: HistoryEntry, now: i64, later: i64)
    ensures
        now <= later ==> entry_score(e, later) <= entry_score(e, now),
        e.last_used == f.last_used && e.count <= f.count ==> entry_score(e, now) <= entry_score(f, now),
        0 <= now - e.last_used < DAY_MILLIS ==> entry_score(e, now) == 10 * (if e.count < 10 { e.count as int } else { 10 }),
{
    let d1 = days_since(e.last_used, now);
    let d2 = days_since(e.last_used, later);
    if now <= later && now - e.last_used > 0 {
        assert((now - e.last_used) / (DAY_MILLIS as int) <= (later - e.last_used) / (DAY_MILLIS as int)) by {
            vstd::arithmetic::div_mod::lemma_div_is_ordered(now - e.last_used, later - e.last_used, DAY_MILLIS as int);
        }
    }
    if now - e.last_used > 0 {
        assert((now - e.last_used) / (DAY_MILLIS as int) >= 0) by (nonlinear_arith)
            requires
                now - e.last_used > 0,
        ;
    }
    if later - e.last_used > 0 {
        assert((later - e.last_used) / (DAY_MILLIS as int) >= 0) by (nonlinear_arith)
            requires
                later - e.last_used > 0,
        ;
    }
    if 0 < now - e.last_used < DAY_MILLIS {
        assert((now - e.last_used) / (DAY_MILLIS as int) == 0) by {
            vstd::arithmetic::div_mod::lemma_basic_div(now - e.last_used, DAY_MILLIS as int);
        }
    }
    let c1: int = if e.count < 10 { e.count as int } else { 10 };
    let c2: int = if f.count < 10 { f.count as int } else { 10 };
    let b1: int = if d1 >= 10 { 0 } else { 10 - d1 };
    let b2: int = if d2 >= 10 { 0 } else { 10 - d2 };
    if now <= later {
        assert(0 <= b2 <= b1 <= 10);
        assert(b2 * c1 <= b1 * c1) by (nonlinear_arith)
            requires
                0 <= b2 <= b1,
                0 <= c1,
        ;
    }
    if e.count <= f.count {
        assert(0 <= c1 <= c2);
        assert(b1 * c1 <= b1 * c2) by (nonlinear_arith)
            requires
                0 <= b1,
                0 <= c1 <= c2,
        ;
    }
}

// ── Calculator tokens ──────────────────────────────────────────

/// The characters an expression may hold: digits, dots, operators,
/// parentheses, spaces and tabs.
pub open spec fn calc_char(c: char) -> bool {
    crate::calc::is_num_char(c) || crate::calc::is_op_char(c) || c == '(' || c == ')' || c == ' ' || c == '\t'
}

/// The token an operator or parenthesis character stands for; nothing for
/// any other character.
pub open spec fn symbol_token(c: char) -> Seq<crate::calc::CalcToken> {
    if crate::calc::is_op_char(c) {
        seq![crate::calc::CalcToken::Op(c)]
    } else if c == '(' {
        seq![crate::calc::CalcToken::LParen]
    } else if c == ')' {
        seq![crate::calc::CalcToken::RParen]
    } else {
        Seq::empty()
    }
}

/// The operator and parenthesis tokens of the characters from `i` on.
pub open spec fn symbols_from(s: Seq<char>, i: int) -> Seq<crate::calc::CalcToken>
    decreases s.len() - i,
{
    if i < 0 || i >= s.len() {
        Seq::empty()
    } else {
        symbol_token(s[i]) + symbols_from(s, i + 1)
    }
}

/// The tokens that are not numbers, in order.
pub open spec fn non_numbers(t: Seq<crate::calc::CalcToken>) -> Seq<crate::calc::CalcToken>
    decreases t.len(),
{
    if t.len() == 0 {
        Seq::empty()
    } else {
        (if t[0] is Num {
            Seq::empty()
        } else {
            seq![t[0]]
        }) + non_numbers(t.drop_first())
    }
}

proof fn lemma_non_numbers_one(x: crate::calc::CalcToken)
    ensures
        non_numbers(seq![x]) == if x is Num { Seq::<crate::calc::CalcToken>::empty() } else { seq![x] },
{
    assert(seq![x].drop_first() =~= Seq::<crate::calc::CalcToken>::empty());
    assert(non_numbers(Seq::<crate::calc::CalcToken>::empty()) == Seq::<crate::calc::CalcToken>::empty());
    assert(seq![x][0] == x);
    if !(x is Num) {
        assert(seq![x] + Seq::<crate::calc::CalcToken>::empty() =~= seq![x]);
    } else {
        assert(Seq::<crate::calc::CalcToken>::empty() + Seq::<crate::calc::CalcToken>::empty() =~= Seq::<crate::calc::CalcToken>::empty());
    }
}

proof fn lemma_non_numbers_concat(a: Seq<crate::calc::CalcToken>, b: Seq<crate::calc::CalcToken>)
    ensures
        non_numbers(a + b) == non_numbers(a) + non_numbers(b),
    decreases a.len(),
{
    if a.len() == 0 {
        assert(a + b =~= b);
    } else {
        lemma_non_numbers_concat(a.drop_first(), b);
        assert((a + b).drop_first() =~= a.drop_first() + b);
        assert((a + b)[0] == a[0]);
        let h: Seq<crate::calc::CalcToken> = if a[0] is Num { Seq::empty() } else { seq![a[0]] };
        assert(h + (non_numbers(a.drop_first()) + non_numbers(b)) =~= (h + non_numbers(a.drop_first())) + non_numbers(b));
    }
}

proof fn lemma_tokens_from_laws(s: Seq<char>, i: int, start: int)
    requires
        0 <= i <= s.len(),
    ensures
        crate::calc::tokens_from(s, i, start) is Some <==> forall|j: int| i <= j < s.len() ==> calc_char(#[trigger] s[j]),
        crate::calc::tokens_from(s, i, start) matches Some(t) ==> non_numbers(t) == symbols_from(s, i),
    decreases s.len() - i,
{
    if i < s.len() {
        let c = s[i];
        let next = if crate::calc::is_num_char(c) { if start >= 0 { start } else { i } } else { -1 };
        lemma_tokens_from_laws(s, i + 1, next);
        let num: Seq<crate::calc::CalcToken> = if start >= 0 {
            seq![crate::calc::CalcToken::Num { start: start as usize, end: i as usize }]
        } else {
            Seq::empty()
        };
        assert(non_numbers(num) == Seq::<crate::calc::CalcToken>::empty()) by {
            if start >= 0 {
                lemma_non_numbers_one(crate::calc::CalcToken::Num { start: start as usize, end: i as usize });
            }
        }
        if !calc_char(c) {
            assert(!(forall|j: int| i <= j < s.len() ==> calc_char(#[trigger] s[j])));
        } else {
            assert((forall|j: int| i <= j < s.len() ==> calc_char(#[trigger] s[j])) <==> (forall|j: int|
                i + 1 <= j < s.len() ==> calc_char(#[trigger] s[j])));
        }
        if let Some(rest) = crate::calc::tokens_from(s, i + 1, next) {
            if crate::calc::is_num_char(c) {
                assert(symbol_token(c) =~= Seq::<crate::calc::CalcToken>::empty());
                assert(symbols_from(s, i) =~= symbols_from(s, i + 1));
            } else {
                let mid: Seq<crate::calc::CalcToken> = if c == ' ' || c == '\t' { num } else if crate::calc::is_op_char(c) {
                    num.push(crate::calc::CalcToken::Op(c))
                } else if c == '(' {
                    num.push(crate::calc::CalcToken::LParen)
                } else {
                    num.push(crate::calc::CalcToken::RParen)
                };
                if calc_char(c) {
                    lemma_non_numbers_concat(mid, rest);
                    if !(c == ' ' || c == '\t') {
                        let last = mid[mid.len() - 1];
                        assert(mid =~= num + seq![last]);
                        lemma_non_numbers_concat(num, seq![last]);
                        lemma_non_numbers_one(last);
                        assert(non_numbers(mid) =~= symbol_token(c));
                    } else {
                        assert(symbol_token(c) =~= Seq::<crate::calc::CalcToken>::empty());
                    }
                }
            }
        }
    } else {
        if start >= 0 {
            lemma_non_numbers_one(crate::calc::CalcToken::Num { start: start as usize, end: s.len() as usize });
        }
    }
}

/// The calculator reads an expression exactly when each of its characters
/// is a digit, a dot, an operator, a parenthesis, a space or a tab; and its
/// tokens other than numbers are then its operators and parentheses, one
/// each, in order.
pub proof fn law_tokens_of_characters(s: Seq<char>)
    ensures
        crate::calc::tokens_of(s) is Some <==> forall|j: int| 0 <= j < s.len() ==> calc_char(#[trigger] s[j]),
        crate::calc::tokens_of(s) matches Some(t) ==> non_numbers(t) == symbols_from(s, 0),
{
    lemma_tokens_from_laws(s, 0, -1);
}

// ── What a filter lets through ─────────────────────────────────

/// A tag set matches a filter tag when it holds that tag or one below it:
/// an item tagged `audio/effects/reverb` matches `audio/effects` and
/// `audio`, and one tagged `audio` does not match `audio/effects`.
pub proof fn law_tags_match_descendants(tags: Seq<Seq<char>>, t: Seq<char>, f: Seq<char>)
    ensures
        tags.contains(t) && (t == f || tag_ancestors(t).contains(f)) ==> tags_match(tags, f),
        (forall|i: int| 0 <= i < tags.len() ==> (#[trigger] tags[i]).len() < f.len()) ==> !tags_match(tags, f),
{
    if tags.contains(t) && (t == f || tag_ancestors(t).contains(f)) {
        law_is_under_iff_ancestor(t, f);
        let i = choose|i: int| 0 <= i < tags.len() && tags[i] == t;
        assert(tag_is_under(tags[i], f));
    }
}

/// An item carrying an excluded tag, or a tag below one, never passes; with
/// nothing excluded, an item carrying any one of the included tags (or a
/// tag below it) passes, whatever the other included tags; an item that
/// matches none of the included tags does not.
pub proof fn law_filter_include_or_exclude(f: FilterStateView, tags: Seq<Seq<char>>, x: Seq<char>, t: Seq<char>)
    ensures
        f.excluded.contains(x) && tags.contains(t) && tag_is_under(t, normalize_tag_path(x)) ==> !filter_passes(f, tags),
        f.excluded.len() == 0 && f.included.contains(x) && tags.contains(t) && tag_is_under(t, normalize_tag_path(x))
            ==> filter_passes(f, tags),
        f.included.len() > 0 && (forall|j: int, i: int| 0 <= j < f.included.len() && 0 <= i < tags.len()
            ==> !tag_is_under(#[trigger] tags[i], normalize_tag_path(#[trigger] f.included[j]))) ==> !filter_passes(f, tags),
{
    if tags.contains(t) {
        let i = choose|i: int| 0 <= i < tags.len() && tags[i] == t;
        if f.excluded.contains(x) && tag_is_under(t, normalize_tag_path(x)) {
            let j = choose|j: int| 0 <= j < f.excluded.len() && f.excluded[j] == x;
            assert(tags_match(tags, normalize_tag_path(f.excluded[j])));
        }
        if f.included.contains(x) && tag_is_under(t, normalize_tag_path(x)) {
            let j = choose|j: int| 0 <= j < f.included.len() && f.included[j] == x;
            assert(tags_match(tags, normalize_tag_path(f.included[j])));
        }
    }
}

// ── Icon lookup ────────────────────────────────────────────────

proof fn lemma_first_existing_from(c: Seq<Seq<char>>, e: Seq<bool>, k: int, i: int)
    requires
        0 <= k,
    ensures
        k <= i < c.len() && i < e.len() && e[i] && (forall|j: int| k <= j < i ==> !#[trigger] e[j])
            ==> crate::icons::first_existing_from(c, e, k) == Some(c[i]),
        (forall|j: int| k <= j < c.len() && j < e.len() ==> !#[trigger] e[j]) ==> crate::icons::first_existing_from(
            c,
            e,
            k,
        ) is None,
    decreases c.len() - k,
{
    if k < c.len() && k < e.len() {
        lemma_first_existing_from(c, e, k + 1, i);
        if k <= i < c.len() && i < e.len() && e[i] && (forall|j: int| k <= j < i ==> !#[trigger] e[j]) && k < i {
            assert(!e[k]);
        }
    }
}

/// The icon picked is the first candidate whose answer is yes: if the
/// `i`-th candidate exists and none before it does, it is picked; if none
/// exists, nothing is.
pub proof fn law_pick_first_existing(c: Seq<Seq<char>>, e: Seq<bool>, i: int)
    ensures
        0 <= i < c.len() && i < e.len() && e[i] && (forall|j: int| 0 <= j < i ==> !#[trigger] e[j])
            ==> crate::icons::first_existing(c, e) == Some(c[i]),
        (forall|j: int| 0 <= j < c.len() && j < e.len() ==> !#[trigger] e[j]) ==> crate::icons::first_existing(c, e) is None,
{
    lemma_first_existing_from(c, e, 0, i);
}

/// A registered custom path is tried first, and an absolute identifier is
/// tried before any theme file.
pub proof fn law_icon_candidate_order(v: IconResolverView, icon: Seq<char>)
    ensures
        v.custom.contains_key(icon) ==> crate::icons::icon_candidates(v, icon)[0] == v.custom[icon],
        icon.len() > 0 && icon[0] == '/' ==> crate::icons::icon_candidates(v, icon)[if v.custom.contains_key(icon) {
            1int
        } else {
            0int
        }] == icon,
        crate::icons::icon_candidates(v, icon).len() == (if v.custom.contains_key(icon) { 1int } else { 0int }) + (
        if icon.len() > 0 && icon[0] == '/' { 1int } else { 0int }) + crate::icons::theme_candidates(v.search_dirs, icon).len(),
{
}

// ── Reading a query ────────────────────────────────────────────

proof fn lemma_first_index_after(t: Seq<char>, rest: Seq<char>, c: char)
    requires
        !t.contains(c),
    ensures
        crate::text::first_index_of(t + seq![c] + rest, c) == t.len(),
        crate::text::first_index_of(t, c) == -1,
    decreases t.len(),
{
    if t.len() > 0 {
        assert(!t.drop_first().contains(c)) by {
            if t.drop_first().contains(c) {
                let j = choose|j: int| 0 <= j < t.drop_first().len() && t.drop_first()[j] == c;
                assert(t[j + 1] == c);
            }
        }
        lemma_first_index_after(t.drop_first(), rest, c);
        assert((t + seq![c] + rest).drop_first() =~= t.drop_first() + seq![c] + rest);
        assert(t[0] != c);
    } else {
        assert(t + seq![c] + rest =~= seq![c] + rest);
    }
}

/// An inline tag query is `#`, the tag text (up to the first space), and
/// the rest: for a non-empty tag text without spaces, `#tag` gives the tag
/// alone and `#tag rest` (the rest not starting with white space) gives the
/// tag and the rest.
pub proof fn law_tag_query_parts(t: Seq<char>, rest: Seq<char>)
    requires
        t.len() > 0,
        !t.contains(' '),
    ensures
        crate::query::tag_query_parts(seq!['#'] + t) == Some((t, None::<Seq<char>>)),
        rest.len() > 0 && !crate::text::is_ws(rest[0]) ==> crate::query::tag_query_parts(seq!['#'] + t + seq![' '] + rest)
            == Some((t, Some(rest))),
{
    lemma_first_index_after(t, rest, ' ');
    assert((seq!['#'] + t).drop_first() =~= t);
    assert((seq!['#'] + t + seq![' '] + rest).drop_first() =~= t + seq![' '] + rest);
    assert((t + seq![' '] + rest).take(t.len() as int) =~= t);
    assert((t + seq![' '] + rest).skip(t.len() as int + 1) =~= rest);
}

/// Leading quotes are all that `exact_query` takes off: the query is some
/// quotes followed by the text, which does not start with a quote.
pub proof fn law_trim_quotes(s: Seq<char>)
    ensures
        exists|k: int| 0 <= k <= s.len() && s == s.take(k) + #[trigger] trim_quotes_of(s) && (forall|j: int|
            0 <= j < k ==> s[j] == '\''),
        trim_quotes_of(s).len() == 0 || trim_quotes_of(s)[0] != '\'',
    decreases s.len(),
{
    if s.len() > 0 && s[0] == '\'' {
        law_trim_quotes(s.drop_first());
        let d = s.drop_first();
        let k = choose|k: int| 0 <= k <= d.len() && d == d.take(k) + #[trigger] trim_quotes_of(d) && (forall|j: int|
            0 <= j < k ==> d[j] == '\'');
        assert(trim_quotes_of(s) == trim_quotes_of(d));
        assert(s.take(k + 1) =~= seq![s[0]] + d.take(k));
        assert(s =~= seq![s[0]] + d);
        assert(s =~= s.take(k + 1) + trim_quotes_of(s));
        assert forall|j: int| 0 <= j < k + 1 implies s[j] == '\'' by {
            if j > 0 {
                assert(s[j] == d[j - 1]);
            }
        }
    } else {
        assert(s =~= s.take(0) + trim_quotes_of(s));
    }
}

/// What `exact_query` keeps of a query.
pub open spec fn trim_quotes_of(s: Seq<char>) -> Seq<char> {
    crate::query::trim_quotes(s)
}

/// A provider prefix selects exactly the providers with that prefix, in
/// their order: every name returned has the prefix, and every provider with
/// the prefix is named.
pub proof fn law_prefix_selects(prefixes: Seq<(String, Option<char>)>, c: char, k: int)
    requires
        0 <= k <= prefixes.len(),
    ensures
        forall|n: Seq<char>| crate::query::prefix_matches(prefixes, c, k).contains(n) <==> exists|i: int|
            0 <= i < k && #[trigger] prefixes[i].1 == Some(c) && prefixes[i].0@ == n,
    decreases k,
{
    if k > 0 {
        law_prefix_selects(prefixes, c, k - 1);
        let p = crate::query::prefix_matches(prefixes, c, k - 1);
        assert forall|n: Seq<char>| crate::query::prefix_matches(prefixes, c, k).contains(n) <==> exists|i: int|
            0 <= i < k && #[trigger] prefixes[i].1 == Some(c) && prefixes[i].0@ == n by {
            if prefixes[k - 1].1 == Some(c) {
                lemma_push_contains(p, prefixes[k - 1].0@, n);
            }
            if exists|i: int| 0 <= i < k && #[trigger] prefixes[i].1 == Some(c) && prefixes[i].0@ == n {
                let i = choose|i: int| 0 <= i < k && #[trigger] prefixes[i].1 == Some(c) && prefixes[i].0@ == n;
                if i < k - 1 {
                    assert(exists|i2: int| 0 <= i2 < k - 1 && #[trigger] prefixes[i2].1 == Some(c) && prefixes[i2].0@ == n);
                }
            }
            if exists|i: int| 0 <= i < k - 1 && #[trigger] prefixes[i].1 == Some(c) && prefixes[i].0@ == n {
                let i = choose|i: int| 0 <= i < k - 1 && #[trigger] prefixes[i].1 == Some(c) && prefixes[i].0@ == n;
                assert(0 <= i < k);
            }
        }
    }
}

// ── Field codes ────────────────────────────────────────────────

/// Dropping field codes keeps exactly the words that do not start with
/// `%`: no kept word starts with `%`, and every such word of the command
/// line is kept.
pub proof fn law_field_codes_dropped(words: Seq<Seq<char>>, k: int)
    requires
        0 <= k <= words.len(),
    ensures
        forall|w: Seq<char>| crate::desktop::non_codes(words, k).contains(w) <==> exists|i: int|
            0 <= i < k && #[trigger] words[i] == w && !(w.len() > 0 && w[0] == '%'),
    decreases k,
{
    if k > 0 {
        law_field_codes_dropped(words, k - 1);
        let p = crate::desktop::non_codes(words, k - 1);
        assert forall|w: Seq<char>| crate::desktop::non_codes(words, k).contains(w) <==> exists|i: int|
            0 <= i < k && #[trigger] words[i] == w && !(w.len() > 0 && w[0] == '%') by {
            if !(words[k - 1].len() > 0 && words[k - 1][0] == '%') {
                lemma_push_contains(p, words[k - 1], w);
            }
            if exists|i: int| 0 <= i < k && #[trigger] words[i] == w && !(w.len() > 0 && w[0] == '%') {
                let i = choose|i: int| 0 <= i < k && #[trigger] words[i] == w && !(w.len() > 0 && w[0] == '%');
                if i < k - 1 {
                    assert(exists|i2: int| 0 <= i2 < k - 1 && #[trigger] words[i2] == w && !(w.len() > 0 && w[0] == '%'));
                }
            }
            if exists|i: int| 0 <= i < k - 1 && #[trigger] words[i] == w && !(w.len() > 0 && w[0] == '%') {
                let i = choose|i: int| 0 <= i < k - 1 && #[trigger] words[i] == w && !(w.len() > 0 && w[0] == '%');
                assert(0 <= i < k);
            }
        }
    }
}

} // verus!
