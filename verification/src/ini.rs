//! Key/value stores read from INI files.
//!
//! A key/value list is kept in the order the pairs were read; a later pair
//! for the same key shadows an earlier one, which is what inserting into a
//! map does. Sections are kept sorted by name, as a `BTreeMap` keeps them.
use vstd::prelude::*;

use crate::text::{chars_eq, chars_lt, lemma_seq_lt_asymmetric, lemma_seq_lt_irreflexive,
    lemma_seq_lt_total, lemma_seq_lt_transitive, seq_lt, string_from_chars};

verus! {

/// The value that a key/value list gives `k`: the last pair for `k`, if any.
pub open spec fn kv_lookup(s: Seq<(Seq<char>, Seq<char>)>, k: Seq<char>) -> Option<Seq<char>>
    decreases s.len(),
{
    if s.len() == 0 {
        None
    } else if s.last().0 == k {
        Some(s.last().1)
    } else {
        kv_lookup(s.drop_last(), k)
    }
}

/// The pairs of a key/value list, as character sequences.
pub open spec fn kv_view(v: Seq<(String, String)>) -> Seq<(Seq<char>, Seq<char>)> {
    Seq::new(v.len(), |i: int| (v[i].0@, v[i].1@))
}

/// The value that a key/value list gives `key`, or `None`.
pub fn kv_get(v: &Vec<(String, String)>, key: &[char]) -> (r: Option<String>)
    ensures
        match r {
            Some(s) => kv_lookup(kv_view(v@), key@) == Some(s@),
            None => kv_lookup(kv_view(v@), key@) is None,
        },
{
    let ghost kv = kv_view(v@);
    let mut i = v.len();
    assert(kv.subrange(0, i as int) == kv);
    while i > 0
        invariant
            i <= v.len(),
            kv == kv_view(v@),
            kv_lookup(kv, key@) == kv_lookup(kv.subrange(0, i as int), key@),
        decreases i,
    {
        let kc = crate::text::chars_of(v[i - 1].0.as_str());
        assert(kv.subrange(0, i as int).drop_last() == kv.subrange(0, i - 1));
        assert(kv.subrange(0, i as int).last() == kv[i - 1]);
        if chars_eq(kc.as_slice(), key) {
            let vc = crate::text::chars_of(v[i - 1].1.as_str());
            return Some(string_from_chars(vc.as_slice()));
        }
        i = i - 1;
    }
    assert(kv.subrange(0, 0) == Seq::<(Seq<char>, Seq<char>)>::empty());
    None
}

/// A named section and its key/value pairs.
pub struct Section {
    pub name: String,
    pub entries: Vec<(String, String)>,
}

/// Sections of an INI file, kept sorted by name with no name twice.
pub struct IniData {
    sections: Vec<Section>,
}

/// The sections as `(name, pairs)`, in order.
pub open spec fn sections_view(v: Seq<Section>) -> Seq<(Seq<char>, Seq<(Seq<char>, Seq<char>)>)> {
    Seq::new(v.len(), |i: int| (v[i].name@, kv_view(v[i].entries@)))
}

/// Section names strictly increase.
pub open spec fn sorted_names(s: Seq<(Seq<char>, Seq<(Seq<char>, Seq<char>)>)>) -> bool {
    forall|i: int, j: int| 0 <= i < j < s.len() ==> seq_lt(#[trigger] s[i].0, #[trigger] s[j].0)
}

/// Whether a section named `n` is present.
pub open spec fn has_section(s: Seq<(Seq<char>, Seq<(Seq<char>, Seq<char>)>)>, n: Seq<char>) -> bool {
    exists|i: int| 0 <= i < s.len() && (#[trigger] s[i]).0 == n
}

/// The pairs of the section named `n`, empty when there is none.
pub open spec fn section_entries(s: Seq<(Seq<char>, Seq<(Seq<char>, Seq<char>)>)>, n: Seq<char>) -> Seq<(Seq<char>, Seq<char>)> {
    if has_section(s, n) {
        s[choose|i: int| 0 <= i < s.len() && (#[trigger] s[i]).0 == n].1
    } else {
        Seq::empty()
    }
}

/// In a sorted list, the section at `i` is the one that `section_entries` names.
pub proof fn lemma_section_at(s: Seq<(Seq<char>, Seq<(Seq<char>, Seq<char>)>)>, i: int)
    requires
        sorted_names(s),
        0 <= i < s.len(),
    ensures
        has_section(s, s[i].0),
        section_entries(s, s[i].0) == s[i].1,
{
    assert(has_section(s, s[i].0));
    let j = choose|j: int| 0 <= j < s.len() && (#[trigger] s[j]).0 == s[i].0;
    if j != i {
        if j < i {
            assert(seq_lt(s[j].0, s[i].0));
        } else {
            assert(seq_lt(s[i].0, s[j].0));
        }
        lemma_seq_lt_irreflexive(s[i].0);
    }
}

impl IniData {
    pub closed spec fn view(&self) -> Seq<(Seq<char>, Seq<(Seq<char>, Seq<char>)>)> {
        sections_view(self.sections@)
    }

    pub open spec fn wf(&self) -> bool {
        sorted_names(self.view())
    }

    /// An empty store.
    pub fn new() -> (r: Self)
        ensures
            r.wf(),
            r.view().len() == 0,
    {
        IniData { sections: Vec::new() }
    }

    /// The number of sections.
    pub fn len(&self) -> (n: usize)
        ensures
            n == self.view().len(),
    {
        self.sections.len()
    }

    /// The name of the section at `i`.
    pub fn name_at(&self, i: usize) -> (r: String)
        requires
            i < self.view().len(),
        ensures
            r@ == self.view()[i as int].0,
    {
        let c = crate::text::chars_of(self.sections[i].name.as_str());
        string_from_chars(c.as_slice())
    }

    /// The value of `key` in the section at `i`.
    pub fn get_at(&self, i: usize, key: &[char]) -> (r: Option<String>)
        requires
            i < self.view().len(),
        ensures
            match r {
                Some(s) => kv_lookup(self.view()[i as int].1, key@) == Some(s@),
                None => kv_lookup(self.view()[i as int].1, key@) is None,
            },
    {
        kv_get(&self.sections[i].entries, key)
    }

    /// Sets `key` to `val` in the section named `name`, creating the section
    /// at its sorted place when it is absent.
    pub fn insert(&mut self, name: &[char], key: &[char], val: &[char])
        requires
            old(self).wf(),
        ensures
            final(self).wf(),
            forall|n: Seq<char>| #[trigger] has_section(final(self).view(), n) <==> has_section(old(self).view(), n) || n == name@,
            forall|n: Seq<char>| #[trigger] section_entries(final(self).view(), n) == if n == name@ {
                section_entries(old(self).view(), n).push((key@, val@))
            } else {
                section_entries(old(self).view(), n)
            },
    {
        let ghost old_v = self.view();
        let n = self.sections.len();
        let mut i: usize = 0;
        // Find the first section whose name does not sort before `name`.
        while i < n
            invariant
                n == self.sections.len(),
                i <= n,
                self.view() == old_v,
                sorted_names(old_v),
                forall|k: int| 0 <= k < i ==> seq_lt(#[trigger] old_v[k].0, name@),
            ensures
                i <= n,
                self.view() == old_v,
                forall|k: int| 0 <= k < i ==> seq_lt(#[trigger] old_v[k].0, name@),
                i < n ==> !seq_lt(old_v[i as int].0, name@),
            decreases n - i,
        {
            let nc = crate::text::chars_of(self.sections[i].name.as_str());
            if !chars_lt(nc.as_slice(), name) {
                break;
            }
            i = i + 1;
        }
        let k_s = string_from_chars(key);
        let v_s = string_from_chars(val);
        let equal = if i < n {
            let nc = crate::text::chars_of(self.sections[i].name.as_str());
            chars_eq(nc.as_slice(), name)
        } else {
            false
        };
        if equal {
            proof {
                lemma_section_at(old_v, i as int);
            }
            let mut sections = Vec::new();
            std::mem::swap(&mut sections, &mut self.sections);
            let mut sec = sections.remove(i);
            let ghost old_entries = sec.entries@;
            sec.entries.push((k_s, v_s));
            assert(kv_view(sec.entries@) =~= kv_view(old_entries).push((key@, val@)));
            sections.insert(i, sec);
            self.sections = sections;
            let ghost new_v = self.view();
            assert(new_v =~= old_v.update(i as int, (name@, old_v[i as int].1.push((key@, val@)))));
            proof {
                assert forall|n: Seq<char>| #[trigger] has_section(new_v, n) <==> has_section(old_v, n) || n == name@ by {
                    if has_section(old_v, n) {
                        let j = choose|j: int| 0 <= j < old_v.len() && (#[trigger] old_v[j]).0 == n;
                        assert(new_v[j].0 == n);
                    }
                    if has_section(new_v, n) {
                        let j = choose|j: int| 0 <= j < new_v.len() && (#[trigger] new_v[j]).0 == n;
                        assert(old_v[j].0 == n);
                    }
                }
                assert(sorted_names(new_v)) by {
                    assert forall|a: int, b: int| 0 <= a < b < new_v.len() implies seq_lt(#[trigger] new_v[a].0, #[trigger] new_v[b].0) by {
                        assert(old_v[a].0 == new_v[a].0 && old_v[b].0 == new_v[b].0);
                    }
                }
                assert forall|n: Seq<char>| #[trigger] section_entries(new_v, n) == if n == name@ {
                    section_entries(old_v, n).push((key@, val@))
                } else {
                    section_entries(old_v, n)
                } by {
                    if has_section(new_v, n) {
                        let j = choose|j: int| 0 <= j < new_v.len() && (#[trigger] new_v[j]).0 == n;
                        lemma_section_at(new_v, j);
                        lemma_section_at(old_v, j);
                        if j == i {
                            assert(new_v[j].1 == old_v[j].1.push((key@, val@)));
                            assert(n == name@);
                        } else {
                            assert(new_v[j] == old_v[j]);
                            assert(n != name@) by {
                                if n == name@ {
                                    assert(old_v[i as int].0 == name@);
                                    if j < i {
                                        assert(seq_lt(old_v[j].0, old_v[i as int].0));
                                    } else {
                                        assert(seq_lt(old_v[i as int].0, old_v[j].0));
                                    }
                                    lemma_seq_lt_irreflexive(name@);
                                }
                            }
                        }
                    } else {
                        assert(n != name@) by {
                            if n == name@ {
                                assert(new_v[i as int].0 == n);
                            }
                        }
                    }
                }
            }
        } else {
            proof {
                if i < n {
                    lemma_seq_lt_total(old_v[i as int].0, name@);
                }
            }
            let mut entries = Vec::new();
            entries.push((k_s, v_s));
            let sec = Section { name: string_from_chars(name), entries };
            let mut sections = Vec::new();
            std::mem::swap(&mut sections, &mut self.sections);
            sections.insert(i, sec);
            self.sections = sections;
            let ghost new_v = self.view();
            let ghost new_entry = (name@, seq![(key@, val@)]);
            assert(kv_view(seq![(k_s, v_s)]) =~= seq![(key@, val@)]);
            assert(new_v =~= old_v.insert(i as int, new_entry));
            proof {
                assert(sorted_names(new_v)) by {
                    assert forall|a: int, b: int| 0 <= a < b < new_v.len() implies seq_lt(#[trigger] new_v[a].0, #[trigger] new_v[b].0) by {
                        if b < i {
                            assert(new_v[a] == old_v[a] && new_v[b] == old_v[b]);
                        } else if b == i {
                            assert(new_v[a] == old_v[a]);
                        } else if a == i {
                            assert(new_v[b] == old_v[b - 1]);
                            if b - 1 > i {
                                lemma_seq_lt_transitive(name@, old_v[i as int].0, old_v[b - 1].0);
                            }
                        } else if a < i {
                            assert(new_v[a] == old_v[a] && new_v[b] == old_v[b - 1]);
                        } else {
                            assert(new_v[a] == old_v[a - 1] && new_v[b] == old_v[b - 1]);
                        }
                    }
                }
                assert(!has_section(old_v, name@)) by {
                    if has_section(old_v, name@) {
                        let j = choose|j: int| 0 <= j < old_v.len() && (#[trigger] old_v[j]).0 == name@;
                        if j < i {
                            lemma_seq_lt_irreflexive(name@);
                        } else if j == i {
                        } else {
                            lemma_seq_lt_transitive(name@, old_v[i as int].0, old_v[j].0);
                            lemma_seq_lt_irreflexive(name@);
                        }
                    }
                }
                assert forall|n: Seq<char>| #[trigger] has_section(new_v, n) <==> has_section(old_v, n) || n == name@ by {
                    if has_section(old_v, n) {
                        let j = choose|j: int| 0 <= j < old_v.len() && (#[trigger] old_v[j]).0 == n;
                        if j < i {
                            assert(new_v[j].0 == n);
                        } else {
                            assert(new_v[j + 1].0 == n);
                        }
                    }
                    if n == name@ {
                        assert(new_v[i as int].0 == n);
                    }
                    if has_section(new_v, n) {
                        let j = choose|j: int| 0 <= j < new_v.len() && (#[trigger] new_v[j]).0 == n;
                        if j < i {
                            assert(old_v[j].0 == n);
                        } else if j > i {
                            assert(old_v[j - 1].0 == n);
                        }
                    }
                }
                assert forall|n: Seq<char>| #[trigger] section_entries(new_v, n) == if n == name@ {
                    section_entries(old_v, n).push((key@, val@))
                } else {
                    section_entries(old_v, n)
                } by {
                    if n == name@ {
                        lemma_section_at(new_v, i as int);
                        assert(Seq::<(Seq<char>, Seq<char>)>::empty().push((key@, val@)) == seq![(key@, val@)]);
                    } else if has_section(new_v, n) {
                        let j = choose|j: int| 0 <= j < new_v.len() && (#[trigger] new_v[j]).0 == n;
                        lemma_section_at(new_v, j);
                        if j < i {
                            lemma_section_at(old_v, j);
                        } else {
                            lemma_section_at(old_v, j - 1);
                        }
                    }
                }
            }
        }
    }
}

} // verus!
