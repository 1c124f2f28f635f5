//! Favorites: the set of item IDs the user has explicitly favorited.

use vstd::prelude::*;

use crate::tags::lemma_remove_no_duplicates;
use crate::tags::lemma_push_no_duplicates;
use crate::text::{find_str, index_of_str, lemma_index_of_str, str_views};

verus! {

/// Favorited item IDs.
#[derive(Debug)]
pub struct Favorites {
    items: Vec<String>,
}

impl View for Favorites {
    type V = Set<Seq<char>>;

    closed spec fn view(&self) -> Set<Seq<char>> {
        str_views(self.items@).to_set()
    }
}

impl Default for Favorites {
    fn default() -> (r: Self)
        ensures
            r.wf(),
            r@ == Set::<Seq<char>>::empty(),
    {
        let r = Favorites { items: Vec::new() };
        assert(str_views(r.items@) =~= Seq::<Seq<char>>::empty());
        assert(r@ =~= Set::<Seq<char>>::empty());
        r
    }
}

impl Clone for Favorites {
    fn clone(&self) -> (r: Self)
        ensures
            r@ == self@,
            self.wf() ==> r.wf(),
    {
        Favorites { items: crate::text::clone_strings(&self.items) }
    }
}

impl Favorites {
    /// Each ID is stored once.
    pub closed spec fn wf(&self) -> bool {
        str_views(self.items@).no_duplicates()
    }

    /// Marks an item as favorite.
    pub fn add(&mut self, item_id: &str)
        requires
            old(self).wf(),
        ensures
            final(self).wf(),
            final(self)@ == old(self)@.insert(item_id@),
    {
        let ghost s = str_views(self.items@);
        proof {
            lemma_index_of_str(s, item_id@);
        }
        match find_str(&self.items, item_id) {
            Some(_) => {
                assert(self@ =~= s.to_set().insert(item_id@));
            },
            None => {
                proof {
                    lemma_push_no_duplicates(s, item_id@);
                }
                self.items.push(item_id.to_owned());
                assert(str_views(self.items@) =~= s.push(item_id@));
                proof {
                    s.lemma_push_to_set_commute(item_id@);
                }
            },
        }
    }

    /// Removes an item from the favorites.
    pub fn remove(&mut self, item_id: &str)
        requires
            old(self).wf(),
        ensures
            final(self).wf(),
            final(self)@ == old(self)@.remove(item_id@),
    {
        let ghost s = str_views(self.items@);
        proof {
            lemma_index_of_str(s, item_id@);
        }
        match find_str(&self.items, item_id) {
            Some(i) => {
                proof {
                    lemma_remove_no_duplicates(s, i as int);
                }
                self.items.remove(i);
                assert(str_views(self.items@) =~= s.remove(i as int));
                assert forall|x: Seq<char>| s.remove(i as int).contains(x) implies s.contains(x) by {
                    let j = choose|j: int| 0 <= j < s.remove(i as int).len() && s.remove(i as int)[j] == x;
                    if j < i {
                        assert(s[j] == x);
                    } else {
                        assert(s[j + 1] == x);
                    }
                }
                assert(self@ =~= s.to_set().remove(item_id@));
            },
            None => {
                assert(self@ =~= s.to_set().remove(item_id@));
            },
        }
    }

    /// Toggles an item's favorite status; returns whether it is now a favorite.
    pub fn toggle(&mut self, item_id: &str) -> (r: bool)
        requires
            old(self).wf(),
        ensures
            final(self).wf(),
            r == !old(self)@.contains(item_id@),
            final(self)@ == if r {
                old(self)@.insert(item_id@)
            } else {
                old(self)@.remove(item_id@)
            },
            old(self)@.finite(),
            final(self)@.finite(),
            final(self)@.len() == if r { old(self)@.len() + 1int } else { old(self)@.len() - 1int },
    {
        proof {
            self.lemma_finite();
        }
        if self.is_favorite(item_id) {
            self.remove(item_id);
            false
        } else {
            self.add(item_id);
            true
        }
    }

    /// The favorites are finitely many.
    pub proof fn lemma_finite(&self)
        ensures
            self@.finite(),
    {
        vstd::seq_lib::seq_to_set_is_finite(str_views(self.items@));
    }

    /// Whether an item is a favorite.
    pub fn is_favorite(&self, item_id: &str) -> (r: bool)
        ensures
            r == self@.contains(item_id@),
    {
        let ghost s = str_views(self.items@);
        proof {
            lemma_index_of_str(s, item_id@);
        }
        match find_str(&self.items, item_id) {
            Some(_) => true,
            None => false,
        }
    }

    /// All favorite IDs, each once, in no particular order.
    pub fn all(&self) -> (r: &[String])
        requires
            self.wf(),
        ensures
            str_views(r@).to_set() == self@,
            str_views(r@).no_duplicates(),
    {
        self.items.as_slice()
    }

    /// Number of favorites.
    pub fn count(&self) -> (r: usize)
        requires
            self.wf(),
        ensures
            r == self@.len(),
    {
        proof {
            str_views(self.items@).unique_seq_to_set();
        }
        self.items.len()
    }
}


/// Path of the favorites file, given the values of `XDG_DATA_HOME` and
/// `HOME` (`None` where unset).
pub fn default_favorites_path(xdg_data_home: Option<&str>, home: Option<&str>) -> (r: String)
    ensures
        r@ == crate::text::data_file(
            crate::text::opt_str_view(xdg_data_home),
            crate::text::opt_str_view(home),
            "favorites.json"@,
        ),
{
    crate::text::data_file_path(xdg_data_home, home, "favorites.json")
}

} // verus!
