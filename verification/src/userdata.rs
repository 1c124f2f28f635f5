//! Per-item user data: ratings, notes, hidden status, first-seen time, user
//! tags, and variant groups whose members share their user tags.
//!
//! Times are milliseconds since the Unix epoch.

use vstd::prelude::*;
use vstd::string::*;

use crate::keyed::KeyedVec;
use crate::text::{
    data_file, data_file_path, drop_keyed, find_str, first_keyed, index_of_str,
    lemma_first_keyed, lemma_index_of_str, opt_str_view, position_str, sorted_insert,
    str_key, str_views, strictly_sorted, without_str,
};

verus! {

/// The system clock's readings, `std::time::SystemTime`, carried opaquely.
#[verifier::external_type_specification]
#[verifier::external_body]
pub struct ExSystemTime(std::time::SystemTime);

/// `std::time::SystemTime::now()`: what the system clock reads. Nothing is
/// stated of it.
#[verifier::external_body]
fn system_now() -> (r: std::time::SystemTime) {
    std::time::SystemTime::now()
}

/// `SystemTime::duration_since(UNIX_EPOCH)` of `t`, as whole seconds and the
/// nanoseconds beyond them (fewer than a billion, as `Duration::subsec_nanos`
/// documents); `None` for the `Err` case, a time before the epoch.
#[verifier::external_body]
fn since_epoch(t: &std::time::SystemTime) -> (r: Option<(u64, u32)>)
    ensures
        r matches Some((_, n)) ==> n < 1_000_000_000,
{
    match t.duration_since(std::time::UNIX_EPOCH) {
        Ok(d) => Some((d.as_secs(), d.subsec_nanos())),
        Err(_) => None,
    }
}

/// `chrono::DateTime::from_timestamp(secs, nsecs)`, read back by its
/// `timestamp_millis()`. Where chrono can represent the time, the result is
/// `secs * 1000 + nsecs / 1_000_000`: the timestamp and nanoseconds a
/// `DateTime` is made from come back unchanged, and `timestamp_millis` adds
/// the whole milliseconds of the nanoseconds to the seconds times 1000.
/// Which arguments chrono cannot represent (`None`) is not stated: its
/// calendar range takes more than a few lines.
#[verifier::external_body]
fn timestamp_millis_of(secs: i64, nsecs: u32) -> (r: Option<i64>)
    ensures
        r matches Some(m) ==> m == secs * 1000 + nsecs / 1_000_000,
{
    match chrono::DateTime::from_timestamp(secs, nsecs) {
        Some(t) => Some(t.timestamp_millis()),
        None => None,
    }
}

/// The current time in milliseconds since the Unix epoch, by the system
/// clock; `None` when the clock reads a time before the epoch or one chrono
/// cannot represent.
pub(crate) fn now_millis() -> (r: Option<i64>)
    ensures
        r matches Some(m) ==> m >= 0,
{
    let t = system_now();
    match since_epoch(&t) {
        Some((secs, nanos)) => {
            if secs <= 9_223_372_036_854_775_807u64 {
                timestamp_millis_of(secs as i64, nanos)
            } else {
                None
            }
        },
        None => None,
    }
}

/// What the user recorded about one item.
#[derive(Debug)]
pub struct ItemData {
    /// 0 = unrated, 1-5 stars.
    pub rating: u8,
    /// Free-text note.
    pub note: String,
    /// Hidden from results.
    pub hidden: bool,
    /// When the launcher first saw the item.
    pub first_seen: Option<i64>,
    /// User-assigned tags, on top of those the provider assigns.
    pub user_tags: Vec<String>,
}

/// The content of an [`ItemData`].
pub struct ItemDataView {
    pub rating: u8,
    pub note: Seq<char>,
    pub hidden: bool,
    pub first_seen: Option<i64>,
    pub user_tags: Seq<Seq<char>>,
}

impl View for ItemData {
    type V = ItemDataView;

    open spec fn view(&self) -> ItemDataView {
        ItemDataView {
            rating: self.rating,
            note: self.note@,
            hidden: self.hidden,
            first_seen: self.first_seen,
            user_tags: str_views(self.user_tags@),
        }
    }
}

/// Data of an item nothing was recorded for.
pub open spec fn default_item() -> ItemDataView {
    ItemDataView {
        rating: 0,
        note: Seq::empty(),
        hidden: false,
        first_seen: None,
        user_tags: Seq::empty(),
    }
}

impl Default for ItemData {
    fn default() -> (r: Self)
        ensures
            r@ == default_item(),
    {
        let r = ItemData {
            rating: 0,
            note: String::new(),
            hidden: false,
            first_seen: None,
            user_tags: Vec::new(),
        };
        assert(r@.user_tags =~= Seq::<Seq<char>>::empty());
        r
    }
}

impl Clone for ItemData {
    fn clone(&self) -> (r: Self)
        ensures
            r@ == self@,
    {
        let tags = crate::text::clone_strings(&self.user_tags);
        ItemData {
            rating: self.rating,
            note: self.note.clone(),
            hidden: self.hidden,
            first_seen: self.first_seen,
            user_tags: tags,
        }
    }
}

/// The content of a user data store.
pub struct UserDataView {
    /// Data by item id.
    pub items: Map<Seq<char>, ItemDataView>,
    /// Item ids, in the order they were first recorded.
    pub item_order: Seq<Seq<char>>,
    /// Time of the last completed scan.
    pub last_scan: Option<i64>,
    /// Members of each variant group, by group key.
    pub groups: Map<Seq<char>, Seq<Seq<char>>>,
    /// Group keys, in the order they were created.
    pub group_order: Seq<Seq<char>>,
}

/// The data recorded for `id`, or the default.
pub open spec fn item_or_default(v: UserDataView, id: Seq<char>) -> ItemDataView {
    if v.items.contains_key(id) {
        v.items[id]
    } else {
        default_item()
    }
}

/// `v` with an entry for `id`, a default one if there was none.
pub open spec fn touch(v: UserDataView, id: Seq<char>) -> UserDataView {
    if v.items.contains_key(id) {
        v
    } else {
        UserDataView {
            items: v.items.insert(id, default_item()),
            item_order: v.item_order.push(id),
            ..v
        }
    }
}

/// `v` with the data of `id` set to `d`.
pub open spec fn put_item(v: UserDataView, id: Seq<char>, d: ItemDataView) -> UserDataView {
    let t = touch(v, id);
    UserDataView { items: t.items.insert(id, d), ..t }
}

/// `tags` with the first occurrence of `old_tag` replaced by `new_tag`.
pub open spec fn replace_first(tags: Seq<Seq<char>>, old_tag: Seq<char>, new_tag: Seq<char>) -> Seq<
    Seq<char>,
> {
    let i = first_keyed(tags, str_key(), old_tag);
    if i >= 0 {
        tags.update(i, new_tag)
    } else {
        tags
    }
}

/// `d` with `tag` added to its user tags unless it is there.
pub open spec fn with_tag(d: ItemDataView, tag: Seq<char>) -> ItemDataView {
    if d.user_tags.contains(tag) {
        d
    } else {
        ItemDataView { user_tags: d.user_tags.push(tag), ..d }
    }
}

/// `v` after adding `tag` to each item of `ids`, in order.
pub open spec fn add_tag_all(v: UserDataView, ids: Seq<Seq<char>>, tag: Seq<char>) -> UserDataView
    decreases ids.len(),
{
    if ids.len() == 0 {
        v
    } else {
        let w = add_tag_all(v, ids.drop_last(), tag);
        put_item(w, ids.last(), with_tag(item_or_default(w, ids.last()), tag))
    }
}

/// What merging `o` into `d` gives: a rating, a note and a hidden flag from
/// `o` win where `o` has them; `d` keeps a first-seen time it has.
pub open spec fn merged_item(d: ItemDataView, o: ItemDataView) -> ItemDataView {
    ItemDataView {
        rating: if o.rating > 0 { o.rating } else { d.rating },
        note: if o.note.len() > 0 { o.note } else { d.note },
        hidden: if o.hidden { true } else { d.hidden },
        first_seen: if d.first_seen is None { o.first_seen } else { d.first_seen },
        user_tags: d.user_tags,
    }
}

/// `v` after merging the items of `ids` from `other`, in order: an item it
/// has is merged into, an item it lacks is added as `other` has it.
pub open spec fn merge_items(
    v: UserDataView,
    other: Map<Seq<char>, ItemDataView>,
    ids: Seq<Seq<char>>,
) -> UserDataView
    decreases ids.len(),
{
    if ids.len() == 0 {
        v
    } else {
        let w = merge_items(v, other, ids.drop_last());
        let id = ids.last();
        put_item(w, id, if w.items.contains_key(id) { merged_item(w.items[id], other[id]) } else { other[id] })
    }
}

/// Position in `order` of the first group whose members contain `id`, or -1.
pub open spec fn first_group_with(
    order: Seq<Seq<char>>,
    groups: Map<Seq<char>, Seq<Seq<char>>>,
    id: Seq<char>,
) -> int
    decreases order.len(),
{
    if order.len() == 0 {
        -1
    } else if groups[order[0]].contains(id) {
        0
    } else {
        let r = first_group_with(order.drop_first(), groups, id);
        if r < 0 {
            -1
        } else {
            r + 1
        }
    }
}

/// The other members of the first variant group that holds `id`.
pub open spec fn siblings(v: UserDataView, id: Seq<char>) -> Seq<Seq<char>> {
    let g = first_group_with(v.group_order, v.groups, id);
    if g >= 0 {
        drop_keyed(v.groups[v.group_order[g]], str_key(), id)
    } else {
        Seq::empty()
    }
}

/// `v` after recording `now` as the first-seen time of `id`, unless it has one.
pub open spec fn seen_at(v: UserDataView, id: Seq<char>, now: i64) -> UserDataView {
    let d = item_or_default(v, id);
    put_item(
        v,
        id,
        ItemDataView {
            first_seen: match d.first_seen {
                Some(t) => Some(t),
                None => Some(now),
            },
            ..d
        },
    )
}

/// `v` with `now` as the time of the last scan.
pub open spec fn scanned_at(v: UserDataView, now: i64) -> UserDataView {
    UserDataView { last_scan: Some(now), ..v }
}

/// The item data of a list of pairs, later pairs replacing earlier ones.
pub open spec fn item_pairs_map(pairs: Seq<(String, ItemData)>) -> Map<Seq<char>, ItemDataView>
    decreases pairs.len(),
{
    if pairs.len() == 0 {
        Map::empty()
    } else {
        item_pairs_map(pairs.drop_last()).insert(pairs.last().0@, pairs.last().1@)
    }
}

/// The variant groups of a list of pairs, later pairs replacing earlier ones.
pub open spec fn group_pairs_map(pairs: Seq<(String, Vec<String>)>) -> Map<
    Seq<char>,
    Seq<Seq<char>>,
>
    decreases pairs.len(),
{
    if pairs.len() == 0 {
        Map::empty()
    } else {
        group_pairs_map(pairs.drop_last()).insert(pairs.last().0@, str_views(pairs.last().1@))
    }
}

/// The full user data store.
pub struct UserDataStore {
    items: KeyedVec<ItemData>,
    /// Time of the last scan, for "recently added" detection.
    pub last_scan: Option<i64>,
    variant_groups: KeyedVec<Vec<String>>,
}

impl View for UserDataStore {
    type V = UserDataView;

    closed spec fn view(&self) -> UserDataView {
        UserDataView {
            items: self.items.map().map_values(|d: ItemData| d@),
            item_order: self.items.key_seq(),
            last_scan: self.last_scan,
            groups: self.variant_groups.map().map_values(|m: Vec<String>| str_views(m@)),
            group_order: self.variant_groups.key_seq(),
        }
    }
}

impl UserDataStore {
    /// The store's invariant.
    pub closed spec fn wf(&self) -> bool {
        self.items.wf() && self.variant_groups.wf()
    }

    /// Facts that hold of every well-formed store's content.
    pub proof fn lemma_view(&self)
        requires
            self.wf(),
        ensures
            self@.item_order.no_duplicates(),
            forall|k: Seq<char>| #[trigger] self@.items.contains_key(k) <==> self@.item_order.contains(k),
            self@.group_order.no_duplicates(),
            forall|k: Seq<char>| #[trigger] self@.groups.contains_key(k) <==> self@.group_order.contains(k),
    {
        self.items.lemma_wf();
        self.variant_groups.lemma_wf();
    }

    /// An empty store.
    pub fn new() -> (r: Self)
        ensures
            r.wf(),
            r@.items == Map::<Seq<char>, ItemDataView>::empty(),
            r@.item_order == Seq::<Seq<char>>::empty(),
            r@.last_scan is None,
            r@.groups == Map::<Seq<char>, Seq<Seq<char>>>::empty(),
            r@.group_order == Seq::<Seq<char>>::empty(),
    {
        let r = UserDataStore { items: KeyedVec::new(), last_scan: None, variant_groups: KeyedVec::new() };
        assert(r@.items =~= Map::<Seq<char>, ItemDataView>::empty());
        assert(r@.groups =~= Map::<Seq<char>, Seq<Seq<char>>>::empty());
        r
    }

    /// Position of the entry of `id`, made with default data if missing.
    fn entry(&mut self, item_id: &str) -> (i: usize)
        requires
            old(self).wf(),
        ensures
            final(self).wf(),
            final(self)@ == touch(old(self)@, item_id@),
            i < final(self).items.key_seq().len(),
            final(self).items.key_seq()[i as int] == item_id@,
    {
        let ghost v = self@;
        match self.items.position(item_id) {
            Some(i) => {
                proof {
                    self.items.lemma_wf();
                }
                i
            },
            None => {
                self.items.push_new(item_id.to_owned(), ItemData::default());
                assert(self@.items =~= v.items.insert(item_id@, default_item()));
                assert(self@ == touch(v, item_id@));
                self.items.len() - 1
            },
        }
    }

    /// Sets the rating of an item, capped at 5.
    pub fn set_rating(&mut self, item_id: &str, rating: u8)
        requires
            old(self).wf(),
        ensures
            final(self).wf(),
            final(self)@ == put_item(
                old(self)@,
                item_id@,
                ItemDataView {
                    rating: if rating < 5 { rating } else { 5 },
                    ..item_or_default(old(self)@, item_id@)
                },
            ),
    {
        let ghost v = self@;
        let i = self.entry(item_id);
        proof {
            self.items.lemma_wf();
        }
        assert(self@.items[item_id@] == item_or_default(v, item_id@));
        assert(self.items.map()[item_id@]@ == item_or_default(v, item_id@));
        let d = self.items.value_mut(i);
        d.rating = if rating < 5 {
            rating
        } else {
            5
        };
        assert(self@.items =~= put_item(v, item_id@, ItemDataView {
            rating: if rating < 5 { rating } else { 5 },
            ..item_or_default(v, item_id@)
        }).items);
    }

    /// The rating of an item; 0 if unrated.
    pub fn rating(&self, item_id: &str) -> (r: u8)
        requires
            self.wf(),
        ensures
            r == item_or_default(self@, item_id@).rating,
    {
        match self.items.get(item_id) {
            Some(d) => d.rating,
            None => 0,
        }
    }

    /// Sets the note of an item.
    pub fn set_note(&mut self, item_id: &str, note: &str)
        requires
            old(self).wf(),
        ensures
            final(self).wf(),
            final(self)@ == put_item(
                old(self)@,
                item_id@,
                ItemDataView { note: note@, ..item_or_default(old(self)@, item_id@) },
            ),
    {
        let ghost v = self@;
        let i = self.entry(item_id);
        proof {
            self.items.lemma_wf();
        }
        assert(self@.items[item_id@] == item_or_default(v, item_id@));
        assert(self.items.map()[item_id@]@ == item_or_default(v, item_id@));
        let d = self.items.value_mut(i);
        d.note = note.to_owned();
        assert(self@.items =~= put_item(
            v,
            item_id@,
            ItemDataView { note: note@, ..item_or_default(v, item_id@) },
        ).items);
    }

    /// The note of an item; empty if none.
    pub fn note(&self, item_id: &str) -> (r: &str)
        requires
            self.wf(),
        ensures
            r@ == item_or_default(self@, item_id@).note,
    {
        match self.items.get(item_id) {
            Some(d) => d.note.as_str(),
            None => {
                proof {
                    reveal_strlit("");
                }
                assert(""@ =~= Seq::<char>::empty());
                ""
            },
        }
    }

    /// Sets whether an item is hidden.
    pub fn set_hidden(&mut self, item_id: &str, hidden: bool)
        requires
            old(self).wf(),
        ensures
            final(self).wf(),
            final(self)@ == put_item(
                old(self)@,
                item_id@,
                ItemDataView { hidden: hidden, ..item_or_default(old(self)@, item_id@) },
            ),
    {
        let ghost v = self@;
        let i = self.entry(item_id);
        proof {
            self.items.lemma_wf();
        }
        assert(self@.items[item_id@] == item_or_default(v, item_id@));
        assert(self.items.map()[item_id@]@ == item_or_default(v, item_id@));
        let d = self.items.value_mut(i);
        d.hidden = hidden;
        assert(self@.items =~= put_item(
            v,
            item_id@,
            ItemDataView { hidden: hidden, ..item_or_default(v, item_id@) },
        ).items);
    }

    /// Flips whether an item is hidden; returns the new value.
    pub fn toggle_hidden(&mut self, item_id: &str) -> (r: bool)
        requires
            old(self).wf(),
        ensures
            final(self).wf(),
            r == !item_or_default(old(self)@, item_id@).hidden,
            final(self)@ == put_item(
                old(self)@,
                item_id@,
                ItemDataView { hidden: r, ..item_or_default(old(self)@, item_id@) },
            ),
    {
        let ghost v = self@;
        let i = self.entry(item_id);
        proof {
            self.items.lemma_wf();
        }
        assert(self@.items[item_id@] == item_or_default(v, item_id@));
        assert(self.items.map()[item_id@]@ == item_or_default(v, item_id@));
        let d = self.items.value_mut(i);
        d.hidden = !d.hidden;
        let r = d.hidden;
        assert(self@.items =~= put_item(
            v,
            item_id@,
            ItemDataView { hidden: r, ..item_or_default(v, item_id@) },
        ).items);
        r
    }

    /// Whether an item is hidden.
    pub fn is_hidden(&self, item_id: &str) -> (r: bool)
        requires
            self.wf(),
        ensures
            r == item_or_default(self@, item_id@).hidden,
    {
        match self.items.get(item_id) {
            Some(d) => d.hidden,
            None => false,
        }
    }

    /// Adds a user tag to an item, unless it has it.
    pub fn add_tag(&mut self, item_id: &str, tag: &str)
        requires
            old(self).wf(),
        ensures
            final(self).wf(),
            final(self)@ == put_item(
                old(self)@,
                item_id@,
                with_tag(item_or_default(old(self)@, item_id@), tag@),
            ),
    {
        let ghost v = self@;
        let i = self.entry(item_id);
        proof {
            self.items.lemma_wf();
        }
        assert(self@.items[item_id@] == item_or_default(v, item_id@));
        assert(self.items.map()[item_id@]@ == item_or_default(v, item_id@));
        let d = self.items.value_mut(i);
        let ghost tags = str_views(d.user_tags@);
        proof {
            lemma_index_of_str(tags, tag@);
        }
        if find_str(&d.user_tags, tag).is_none() {
            d.user_tags.push(tag.to_owned());
            assert(str_views(d.user_tags@) =~= tags.push(tag@));
        }
        assert(self@.items =~= put_item(
            v,
            item_id@,
            with_tag(item_or_default(v, item_id@), tag@),
        ).items);
    }

    /// Removes a user tag from an item; items without data are left alone.
    pub fn remove_tag(&mut self, item_id: &str, tag: &str)
        requires
            old(self).wf(),
        ensures
            final(self).wf(),
            final(self)@ == if old(self)@.items.contains_key(item_id@) {
                put_item(
                    old(self)@,
                    item_id@,
                    ItemDataView {
                        user_tags: drop_keyed(old(self)@.items[item_id@].user_tags, str_key(), tag@),
                        ..old(self)@.items[item_id@]
                    },
                )
            } else {
                old(self)@
            },
    {
        let ghost v = self@;
        match self.items.position(item_id) {
            Some(i) => {
                proof {
                    self.items.lemma_wf();
                }
                let d = self.items.value_mut(i);
                let kept = without_str(&d.user_tags, tag);
                d.user_tags = kept;
                assert(self@.items =~= v.items.insert(
                    item_id@,
                    ItemDataView {
                        user_tags: drop_keyed(v.items[item_id@].user_tags, str_key(), tag@),
                        ..v.items[item_id@]
                    },
                ));
            },
            None => {},
        }
    }

    /// The user tags of an item.
    pub fn user_tags(&self, item_id: &str) -> (r: &[String])
        requires
            self.wf(),
        ensures
            str_views(r@) == item_or_default(self@, item_id@).user_tags,
    {
        match self.items.get(item_id) {
            Some(d) => d.user_tags.as_slice(),
            None => {
                let e: &[String] = &[];
                assert(str_views(e@) =~= Seq::<Seq<char>>::empty());
                e
            },
        }
    }

    /// Replaces, in every item, the first occurrence of a user tag.
    pub fn replace_tag_all(&mut self, old_tag: &str, new_tag: &str)
        requires
            old(self).wf(),
        ensures
            final(self).wf(),
            final(self)@ == (UserDataView {
                items: old(self)@.items.map_values(
                    |d: ItemDataView|
                        ItemDataView { user_tags: replace_first(d.user_tags, old_tag@, new_tag@), ..d },
                ),
                ..old(self)@
            }),
    {
        let ghost v = self@;
        let ghost vals0 = self.items.val_seq();
        let ghost keys = self.items.key_seq();
        let n = self.items.len();
        let mut i: usize = 0;
        proof {
            self.items.lemma_wf();
        }
        while i < n
            invariant
                self.wf(),
                n == keys.len(),
                i <= n,
                self.items.key_seq() == keys,
                self.last_scan == v.last_scan,
                self@.groups == v.groups,
                self@.group_order == v.group_order,
                self.items.val_seq().len() == n,
                vals0.len() == n,
                forall|j: int|
                    0 <= j < i ==> (#[trigger] self.items.val_seq()[j])@ == (ItemDataView {
                        user_tags: replace_first(vals0[j]@.user_tags, old_tag@, new_tag@),
                        ..vals0[j]@
                    }),
                forall|j: int| i <= j < n ==> #[trigger] self.items.val_seq()[j] == vals0[j],
            decreases n - i,
        {
            let d = self.items.value_mut(i);
            let ghost tags = str_views(d.user_tags@);
            proof {
                crate::text::lemma_first_keyed_bounds(tags, str_key(), old_tag@);
            }
            match position_str(&d.user_tags, old_tag) {
                Some(p) => {
                    d.user_tags.set(p, new_tag.to_owned());
                    assert(str_views(d.user_tags@) =~= tags.update(p as int, new_tag@));
                },
                None => {},
            }
            i = i + 1;
        }
        proof {
            self.items.lemma_wf();
            let want = v.items.map_values(
                |d: ItemDataView|
                    ItemDataView { user_tags: replace_first(d.user_tags, old_tag@, new_tag@), ..d },
            );
            assert forall|k: Seq<char>| #[trigger] self@.items.contains_key(k) implies self@.items[k]
                == want[k] by {
                let j = choose|j: int| 0 <= j < keys.len() && keys[j] == k;
                old(self).items.lemma_wf();
                assert(self.items.map()[keys[j]] == self.items.val_seq()[j]);
                assert(old(self).items.map()[keys[j]] == vals0[j]);
            }
            assert forall|k: Seq<char>| self@.items.contains_key(k) <==> want.contains_key(k) by {
                old(self).items.lemma_wf();
            }
            assert(self@.items =~= want);
        }
    }

    /// Puts an item into a variant group; the group's members are kept
    /// sorted, each once.
    pub fn set_variant_group(&mut self, item_id: &str, group: &str)
        requires
            old(self).wf(),
        ensures
            final(self).wf(),
            ({
                let t = touch(old(self)@, item_id@);
                let before = if old(self)@.groups.contains_key(group@) {
                    old(self)@.groups[group@]
                } else {
                    Seq::empty()
                };
                &&& final(self)@.items == t.items
                &&& final(self)@.item_order == t.item_order
                &&& final(self)@.last_scan == t.last_scan
                &&& final(self)@.groups.dom() == old(self)@.groups.dom().insert(group@)
                &&& final(self)@.groups.remove(group@) == old(self)@.groups.remove(group@)
                &&& strictly_sorted(final(self)@.groups[group@])
                &&& final(self)@.groups[group@].to_set() == before.to_set().insert(item_id@)
                &&& final(self)@.group_order == if old(self)@.groups.contains_key(group@) {
                    old(self)@.group_order
                } else {
                    old(self)@.group_order.push(group@)
                }
            }),
    {
        let ghost v = self@;
        self.entry(item_id);
        let ghost before = if v.groups.contains_key(group@) {
            v.groups[group@]
        } else {
            Seq::<Seq<char>>::empty()
        };
        let mut members: Vec<String> = Vec::new();
        proof {
            assert(strictly_sorted(str_views(members@)));
            assert(str_views(members@) =~= Seq::<Seq<char>>::empty());
        }
        match self.variant_groups.get(group) {
            Some(old_members) => {
                let mut k: usize = 0;
                while k < old_members.len()
                    invariant
                        k <= old_members@.len(),
                        str_views(old_members@) == before,
                        strictly_sorted(str_views(members@)),
                        str_views(members@).to_set() == before.take(k as int).to_set(),
                    decreases old_members@.len() - k,
                {
                    sorted_insert(&mut members, old_members[k].clone());
                    assert(before.take(k + 1) =~= before.take(k as int).push(before[k as int]));
                    proof {
                        before.take(k as int).lemma_push_to_set_commute(before[k as int]);
                    }
                    k = k + 1;
                }
                assert(before.take(k as int) =~= before);
            },
            None => {
                assert(before.to_set() =~= Seq::<Seq<char>>::empty().to_set());
            },
        }
        sorted_insert(&mut members, item_id.to_owned());
        self.variant_groups.insert(group.to_owned(), members);
        proof {
            self.variant_groups.lemma_wf();
            old(self).variant_groups.lemma_wf();
            assert(self@.groups.remove(group@) =~= v.groups.remove(group@));
            assert(self@.groups.dom() =~= v.groups.dom().insert(group@));
        }
    }

    /// The other members of the first variant group that holds the item.
    pub fn variant_siblings(&self, item_id: &str) -> (r: Vec<String>)
        requires
            self.wf(),
        ensures
            str_views(r@) == siblings(self@, item_id@),
    {
        let n = self.variant_groups.len();
        let mut g: usize = 0;
        proof {
            self.variant_groups.lemma_wf();
        }
        let ghost order = self@.group_order;
        let ghost groups = self@.groups;
        assert(order.skip(0) =~= order);
        while g < n
            invariant
                self.wf(),
                n == order.len(),
                g <= n,
                order == self@.group_order,
                groups == self@.groups,
                forall|j: int| 0 <= j < order.len() ==> #[trigger] groups.contains_key(order[j]),
                forall|j: int| 0 <= j < g ==> !(#[trigger] groups[order[j]]).contains(item_id@),
                first_group_with(order, groups, item_id@) == if first_group_with(
                    order.skip(g as int),
                    groups,
                    item_id@,
                ) < 0 {
                    -1
                } else {
                    first_group_with(order.skip(g as int), groups, item_id@) + g
                },
            decreases n - g,
        {
            let members = self.variant_groups.value_at(g);
            proof {
                self.variant_groups.lemma_wf();
                lemma_index_of_str(str_views(members@), item_id@);
            }
            assert(groups[order[g as int]] == str_views(members@));
            if find_str(members, item_id).is_some() {
                assert(order.skip(g as int)[0] == order[g as int]);
                return without_str(members, item_id);
            }
            assert(order.skip(g as int).drop_first() =~= order.skip(g + 1));
            g = g + 1;
        }
        assert(order.skip(g as int) =~= Seq::<Seq<char>>::empty());
        Vec::new()
    }

    /// Adds a user tag to every variant sibling of an item.
    pub fn sync_tag_to_variants(&mut self, item_id: &str, tag: &str)
        requires
            old(self).wf(),
        ensures
            final(self).wf(),
            final(self)@ == add_tag_all(old(self)@, siblings(old(self)@, item_id@), tag@),
    {
        let ghost v = self@;
        let sibs = self.variant_siblings(item_id);
        let ghost s = str_views(sibs@);
        let mut k: usize = 0;
        while k < sibs.len()
            invariant
                self.wf(),
                k <= sibs@.len(),
                s == str_views(sibs@),
                self@ == add_tag_all(v, s.take(k as int), tag@),
            decreases sibs@.len() - k,
        {
            self.add_tag(sibs[k].as_str(), tag);
            assert(s.take(k + 1).drop_last() =~= s.take(k as int));
            k = k + 1;
        }
        assert(s.take(k as int) =~= s);
    }

    /// Records `now` as the time an item was first seen, unless it has one.
    pub fn mark_seen_at(&mut self, item_id: &str, now: i64)
        requires
            old(self).wf(),
        ensures
            final(self).wf(),
            final(self)@ == seen_at(old(self)@, item_id@, now),
    {
        let ghost v = self@;
        let i = self.entry(item_id);
        proof {
            self.items.lemma_wf();
        }
        assert(self@.items[item_id@] == item_or_default(v, item_id@));
        assert(self.items.map()[item_id@]@ == item_or_default(v, item_id@));
        let d = self.items.value_mut(i);
        if d.first_seen.is_none() {
            d.first_seen = Some(now);
        }
        assert(self@.items =~= put_item(
            v,
            item_id@,
            ItemDataView {
                first_seen: match item_or_default(v, item_id@).first_seen {
                    Some(t) => Some(t),
                    None => Some(now),
                },
                ..item_or_default(v, item_id@)
            },
        ).items);
    }

    /// Marks an item as seen now, if it was not seen before; nothing changes
    /// when the system clock cannot be read as a time after the epoch.
    pub fn mark_seen(&mut self, item_id: &str)
        requires
            old(self).wf(),
        ensures
            final(self).wf(),
            final(self)@ == old(self)@ || exists|now: i64| final(self)@ == #[trigger] seen_at(
                old(self)@,
                item_id@,
                now,
            ),
    {
        if let Some(now) = now_millis() {
            self.mark_seen_at(item_id, now);
        }
    }

    /// Whether an item was first seen after `since`.
    pub fn is_new_since(&self, item_id: &str, since: i64) -> (r: bool)
        requires
            self.wf(),
        ensures
            r == match item_or_default(self@, item_id@).first_seen {
                Some(t) => t > since,
                None => false,
            },
    {
        match self.items.get(item_id) {
            Some(d) => match d.first_seen {
                Some(t) => t > since,
                None => false,
            },
            None => false,
        }
    }

    /// Whether an item was first seen after the last scan; nothing is new
    /// before the first scan.
    pub fn is_recently_added(&self, item_id: &str) -> (r: bool)
        requires
            self.wf(),
        ensures
            r == match self@.last_scan {
                Some(s) => match item_or_default(self@, item_id@).first_seen {
                    Some(t) => t > s,
                    None => false,
                },
                None => false,
            },
    {
        match self.last_scan {
            Some(s) => self.is_new_since(item_id, s),
            None => false,
        }
    }

    /// Sets the time of the last scan.
    pub fn mark_scan_complete_at(&mut self, now: i64)
        requires
            old(self).wf(),
        ensures
            final(self).wf(),
            final(self)@ == scanned_at(old(self)@, now),
    {
        self.last_scan = Some(now);
    }

    /// Sets the time of the last scan to now; nothing changes when the system
    /// clock cannot be read as a time after the epoch.
    pub fn mark_scan_complete(&mut self)
        requires
            old(self).wf(),
        ensures
            final(self).wf(),
            final(self)@ == old(self)@ || exists|now: i64| final(self)@ == #[trigger] scanned_at(
                old(self)@,
                now,
            ),
    {
        if let Some(now) = now_millis() {
            self.mark_scan_complete_at(now);
        }
    }

    /// All recorded items with their data, in the order they were first recorded.
    pub fn all_data(&self) -> (r: Vec<(String, ItemData)>)
        requires
            self.wf(),
        ensures
            r@.len() == self@.item_order.len(),
            forall|i: int|
                0 <= i < r@.len() ==> (#[trigger] r@[i]).0@ == self@.item_order[i] && r@[i].1@
                    == self@.items[self@.item_order[i]],
    {
        proof {
            self.items.lemma_wf();
        }
        let n = self.items.len();
        let mut r: Vec<(String, ItemData)> = Vec::new();
        let mut i: usize = 0;
        while i < n
            invariant
                self.wf(),
                n == self@.item_order.len(),
                i <= n,
                r@.len() == i,
                forall|j: int|
                    0 <= j < i ==> (#[trigger] r@[j]).0@ == self@.item_order[j] && r@[j].1@
                        == self@.items[self@.item_order[j]],
            decreases n - i,
        {
            proof {
                self.items.lemma_wf();
            }
            let k = self.items.key_at(i).clone();
            let d = self.items.value_at(i).clone();
            r.push((k, d));
            i = i + 1;
        }
        r
    }

    /// The variant groups with their members, in the order they were created.
    pub fn variant_groups(&self) -> (r: Vec<(String, Vec<String>)>)
        requires
            self.wf(),
        ensures
            r@.len() == self@.group_order.len(),
            forall|i: int|
                0 <= i < r@.len() ==> (#[trigger] r@[i]).0@ == self@.group_order[i] && str_views(
                    r@[i].1@,
                ) == self@.groups[self@.group_order[i]],
    {
        proof {
            self.variant_groups.lemma_wf();
        }
        let n = self.variant_groups.len();
        let mut r: Vec<(String, Vec<String>)> = Vec::new();
        let mut i: usize = 0;
        while i < n
            invariant
                self.wf(),
                n == self@.group_order.len(),
                i <= n,
                r@.len() == i,
                forall|j: int|
                    0 <= j < i ==> (#[trigger] r@[j]).0@ == self@.group_order[j] && str_views(
                        r@[j].1@,
                    ) == self@.groups[self@.group_order[j]],
            decreases n - i,
        {
            proof {
                self.variant_groups.lemma_wf();
            }
            let k = self.variant_groups.key_at(i).clone();
            let m = crate::text::clone_strings(self.variant_groups.value_at(i));
            r.push((k, m));
            i = i + 1;
        }
        r
    }

    /// A store holding the given items, scan time and variant groups, as read
    /// from a file; a later entry for the same key replaces an earlier one.
    pub fn from_parts(
        items: Vec<(String, ItemData)>,
        last_scan: Option<i64>,
        groups: Vec<(String, Vec<String>)>,
    ) -> (r: Self)
        ensures
            r.wf(),
            r@.items == item_pairs_map(items@),
            r@.last_scan == last_scan,
            r@.groups == group_pairs_map(groups@),
    {
        let mut store = UserDataStore::new();
        store.last_scan = last_scan;
        let ghost all = items@;
        let mut k: usize = 0;
        assert(store@.items =~= item_pairs_map(all.take(0)));
        while k < items.len()
            invariant
                store.wf(),
                store@.last_scan == last_scan,
                store@.groups == Map::<Seq<char>, Seq<Seq<char>>>::empty(),
                k <= all.len(),
                all == items@,
                store@.items == item_pairs_map(all.take(k as int)),
            decreases all.len() - k,
        {
            let ghost v = store@;
            let d = items[k].1.clone();
            let ghost dv = d@;
            store.items.insert(items[k].0.clone(), d);
            assert(store@.items =~= v.items.insert(all[k as int].0@, dv));
            assert(all.take(k + 1).drop_last() =~= all.take(k as int));
            k = k + 1;
        }
        assert(all.take(k as int) =~= all);
        let mut gi: usize = 0;
        while gi < groups.len()
            invariant
                store.wf(),
                store@.last_scan == last_scan,
                store@.items == item_pairs_map(all),
                gi <= groups@.len(),
                store@.groups == group_pairs_map(groups@.take(gi as int)),
            decreases groups@.len() - gi,
        {
            let ghost v = store@;
            let members = crate::text::clone_strings(&groups[gi].1);
            store.variant_groups.insert(groups[gi].0.clone(), members);
            assert(store@.groups =~= v.groups.insert(groups@[gi as int].0@, str_views(groups@[gi as int].1@)));
            assert(groups@.take(gi + 1).drop_last() =~= groups@.take(gi as int));
            gi = gi + 1;
        }
        assert(groups@.take(gi as int) =~= groups@);
        store
    }

    /// Merges data from another store, for import: an item this store lacks
    /// is added as the other store has it, user tags included; for an item
    /// both have, a rating, a note and a hidden flag the other has win, a
    /// first-seen time already recorded is kept, and user tags stay.
    pub fn merge(&mut self, other: &UserDataStore)
        requires
            old(self).wf(),
            other.wf(),
        ensures
            final(self).wf(),
            final(self)@ == merge_items(old(self)@, other@.items, other@.item_order),
    {
        let ghost v = self@;
        let ghost order = other@.item_order;
        proof {
            other.items.lemma_wf();
        }
        let n = other.items.len();
        let mut k: usize = 0;
        while k < n
            invariant
                self.wf(),
                other.wf(),
                n == order.len(),
                order == other@.item_order,
                k <= n,
                self@ == merge_items(v, other@.items, order.take(k as int)),
            decreases n - k,
        {
            proof {
                other.items.lemma_wf();
            }
            let id = other.items.key_at(k);
            let od = other.items.value_at(k);
            let ghost w = self@;
            if self.items.position(id.as_str()).is_none() {
                let nd = od.clone();
                self.items.push_new(id.clone(), nd);
                assert(other@.items[order[k as int]] == od@);
                assert(self@.items =~= put_item(w, id@, od@).items);
                assert(self@ == put_item(w, id@, od@));
                assert(order.take(k + 1).drop_last() =~= order.take(k as int));
                k = k + 1;
                continue;
            }
            let i = self.entry(id.as_str());
            proof {
                self.items.lemma_wf();
            }
            assert(self@.items[id@] == item_or_default(w, id@));
            assert(self.items.map()[id@]@ == item_or_default(w, id@));
            let d = self.items.value_mut(i);
            if od.rating > 0 {
                d.rating = od.rating;
            }
            if !od.note.as_str().is_empty() {
                d.note = od.note.clone();
            }
            if od.hidden {
                d.hidden = true;
            }
            if d.first_seen.is_none() {
                d.first_seen = od.first_seen;
            }
            assert(other@.items[order[k as int]] == od@);
            assert(self@.items =~= put_item(
                w,
                id@,
                merged_item(item_or_default(w, id@), od@),
            ).items);
            assert(order.take(k + 1).drop_last() =~= order.take(k as int));
            k = k + 1;
        }
        assert(order.take(k as int) =~= order);
    }
}

/// Path of the user data file, given the values of `XDG_DATA_HOME` and
/// `HOME` (`None` where unset).
pub fn default_userdata_path(xdg_data_home: Option<&str>, home: Option<&str>) -> (r: String)
    ensures
        r@ == data_file(opt_str_view(xdg_data_home), opt_str_view(home), "userdata.json"@),
{
    let r = data_file_path(xdg_data_home, home, "userdata.json");
    proof {
        reveal_strlit("userdata.json");
    }
    r
}

} // verus!
