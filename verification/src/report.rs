//! The filled-in form: text fields by name, and the set of ticked boxes.

use vstd::prelude::*;
use crate::pairs::{
    pairs_map, names_set, distinct_keys, distinct_names, keys_sorted, names_sorted, lemma_pairs_map,
    lemma_sorted_keys_distinct, lemma_sorted_names_distinct, find_key, find_name, set_sorted_pair, add_name,
};

verus! {

/// The text of field `k` of a form, empty where it has none.
pub open spec fn field_text(text: Map<Seq<char>, Seq<char>>, k: Seq<char>) -> Seq<char> {
    if text.contains_key(k) { text[k] } else { Seq::empty() }
}

/// Reading a field after setting it gives the value set; the other fields
/// and the boxes read as before.
pub proof fn lemma_read_after_write(text: Map<Seq<char>, Seq<char>>, k: Seq<char>, v: Seq<char>, other: Seq<char>)
    ensures
        field_text(text.insert(k, v), k) == v,
        other != k ==> field_text(text.insert(k, v), other) == field_text(text, other),
{
}

/// The form's data: text fields by name, and the names of the ticked boxes.
pub struct ReportData {
    text: Vec<(String, String)>,
    checks: Vec<String>,
}

impl ReportData {
    /// Fields and boxes are kept in name order, as a `BTreeMap` and a
    /// `BTreeSet` keep them, so no name is stored twice.
    #[verifier::type_invariant]
    spec fn well_formed(self) -> bool {
        &&& keys_sorted(self.text@)
        &&& names_sorted(self.checks@)
    }

    /// The text fields, as a map from name to value.
    pub closed spec fn text_view(self) -> Map<Seq<char>, Seq<char>> {
        pairs_map(self.text@)
    }

    /// The names of the ticked boxes.
    pub closed spec fn checks_view(self) -> Set<Seq<char>> {
        names_set(self.checks@)
    }

    /// An empty form.
    pub fn new() -> (d: ReportData)
        ensures
            d.text_view() == Map::<Seq<char>, Seq<char>>::empty(),
            d.checks_view() == Set::<Seq<char>>::empty(),
    {
        let d = ReportData { text: Vec::new(), checks: Vec::new() };
        assert(d.checks_view() =~= Set::<Seq<char>>::empty());
        d
    }

    /// The value of text field `k`, or the empty string where it has none.
    pub fn t(&self, k: &str) -> (v: &str)
        ensures
            v@ == field_text(self.text_view(), k@),
    {
        proof {
            use_type_invariant(self);
            lemma_sorted_keys_distinct(self.text@);
            lemma_pairs_map(self.text@);
        }
        let key = k.to_owned();
        match find_key(&self.text, &key) {
            Some(i) => self.text[i].1.as_str(),
            None => {
                proof {
                    reveal_strlit("");
                }
                ""
            },
        }
    }

    /// Whether box `k` is ticked.
    pub fn c(&self, k: &str) -> (b: bool)
        ensures
            b == self.checks_view().contains(k@),
    {
        let key = k.to_owned();
        let r = find_name(&self.checks, &key);
        proof {
            if self.checks_view().contains(k@) {
                let i = choose|i: int| 0 <= i < self.checks@.len() && #[trigger] self.checks@[i]@ == k@;
                assert(self.checks@[i]@ == k@);
            }
        }
        r.is_some()
    }

    /// The stored text fields as (name, value) pairs, in name order.
    pub fn text_pairs(&self) -> (r: &Vec<(String, String)>)
        ensures
            pairs_map(r@) == self.text_view(),
            keys_sorted(r@),
            distinct_keys(r@),
    {
        proof {
            use_type_invariant(self);
            lemma_sorted_keys_distinct(self.text@);
        }
        &self.text
    }

    /// The names of the ticked boxes, in name order.
    pub fn check_names(&self) -> (r: &Vec<String>)
        ensures
            names_set(r@) == self.checks_view(),
            names_sorted(r@),
            distinct_names(r@),
    {
        proof {
            use_type_invariant(self);
            lemma_sorted_names_distinct(self.checks@);
        }
        &self.checks
    }

    /// Sets text field `k` to `v`, replacing any value it had.
    pub fn insert_text(&mut self, k: String, v: String)
        ensures
            final(self).text_view() == old(self).text_view().insert(k@, v@),
            final(self).checks_view() == old(self).checks_view(),
    {
        proof {
            use_type_invariant(&*self);
        }
        let mut text: Vec<(String, String)> = Vec::new();
        std::mem::swap(&mut text, &mut self.text);
        set_sorted_pair(&mut text, k, v);
        self.text = text;
    }

    /// Ticks box `k`.
    pub fn insert_check(&mut self, k: String)
        ensures
            final(self).checks_view() == old(self).checks_view().insert(k@),
            final(self).text_view() == old(self).text_view(),
    {
        proof {
            use_type_invariant(&*self);
        }
        let mut checks: Vec<String> = Vec::new();
        std::mem::swap(&mut checks, &mut self.checks);
        add_name(&mut checks, k);
        self.checks = checks;
    }

    /// Records one form control the way the form is read: a ticked checkbox
    /// ticks its box, an unticked one changes nothing; any other control sets
    /// its text field to its value where the value is not empty.
    pub fn record_input(&mut self, name: String, is_checkbox: bool, checked: bool, value: String)
        ensures
            is_checkbox && checked ==> final(self).checks_view() == old(self).checks_view().insert(name@)
                && final(self).text_view() == old(self).text_view(),
            !is_checkbox && value@.len() > 0 ==> final(self).text_view() == old(self).text_view().insert(name@, value@)
                && final(self).checks_view() == old(self).checks_view(),
            (is_checkbox && !checked) || (!is_checkbox && value@.len() == 0) ==>
                final(self).text_view() == old(self).text_view() && final(self).checks_view() == old(self).checks_view(),
    {
        if is_checkbox {
            if checked {
                self.insert_check(name);
            }
        } else if !value.as_str().is_empty() {
            self.insert_text(name, value);
        }
    }
}

impl Default for ReportData {
    /// An empty form.
    fn default() -> (d: ReportData)
        ensures
            d.text_view() == Map::<Seq<char>, Seq<char>>::empty(),
            d.checks_view() == Set::<Seq<char>>::empty(),
    {
        ReportData::new()
    }
}

} // verus!
