use vstd::prelude::*;

use crate::csvio::{bom_free, csv_decode, csv_encode, csv_parse, rows_view};
use crate::text::str_eq;
use crate::timefmt::{
    format_stored_minutes, parse_stored_minutes, stored_minutes, MAX_STAMP_MINUTES,
};

verus! {

/// The timestamp a path maps to in an association list; the entry
/// nearest the end wins.
pub open spec fn lookup(s: Seq<(String, i64)>, path: Seq<char>) -> Option<i64>
    decreases s.len(),
{
    if s.len() == 0 {
        None
    } else if s.last().0@ == path {
        Some(s.last().1)
    } else {
        lookup(s.drop_last(), path)
    }
}

/// A stored record is usable when its timestamp reads back and its path
/// survives the container round trip.
pub open spec fn row_ok(row: (Seq<char>, Seq<char>)) -> bool {
    stored_minutes(row.1) is Some && bom_free(row.0)
}

/// The timestamp a path maps to in a sequence of freshly parsed records:
/// unusable records are passed over, and of several usable records for
/// one path the last wins.
pub open spec fn rows_lookup(rows: Seq<(Seq<char>, Seq<char>)>, path: Seq<char>) -> Option<i64>
    decreases rows.len(),
{
    if rows.len() == 0 {
        None
    } else if rows.last().0 == path && row_ok(rows.last()) {
        stored_minutes(rows.last().1)
    } else {
        rows_lookup(rows.drop_last(), path)
    }
}

/// Well-formed entries: one record per path, every timestamp in range,
/// every path able to round-trip through the store file.
pub open spec fn entries_wf(s: Seq<(String, i64)>) -> bool {
    &&& forall|i: int, j: int| 0 <= i < j < s.len() ==> s[i].0@ != s[j].0@
    &&& forall|i: int| 0 <= i < s.len() ==> 0 <= #[trigger] s[i].1 <= MAX_STAMP_MINUTES
    &&& forall|i: int| 0 <= i < s.len() ==> bom_free(#[trigger] s[i].0@)
}

proof fn lemma_lookup_present(s: Seq<(String, i64)>, j: int)
    requires
        entries_wf(s),
        0 <= j < s.len(),
    ensures
        lookup(s, s[j].0@) == Some(s[j].1),
    decreases s.len(),
{
    if j < s.len() - 1 {
        assert(s.last().0@ != s[j].0@);
        assert(s.drop_last()[j] == s[j]);
        lemma_lookup_present(s.drop_last(), j);
    }
}

proof fn lemma_lookup_absent(s: Seq<(String, i64)>, path: Seq<char>)
    requires
        forall|j: int| 0 <= j < s.len() ==> (#[trigger] s[j].0)@ != path,
    ensures
        lookup(s, path) == None::<i64>,
    decreases s.len(),
{
    if s.len() > 0 {
        lemma_lookup_absent(s.drop_last(), path);
    }
}

proof fn lemma_lookup_remove(s: Seq<(String, i64)>, j: int, path: Seq<char>)
    requires
        entries_wf(s),
        0 <= j < s.len(),
    ensures
        lookup(s.remove(j), path) == if path == s[j].0@ {
            None::<i64>
        } else {
            lookup(s, path)
        },
    decreases s.len(),
{
    if j == s.len() - 1 {
        assert(s.remove(j) =~= s.drop_last());
        if path == s[j].0@ {
            lemma_lookup_absent(s.drop_last(), path);
        }
    } else {
        let r = s.remove(j);
        assert(r.last() == s.last());
        assert(r.drop_last() =~= s.drop_last().remove(j));
        assert(s.drop_last()[j] == s[j]);
        lemma_lookup_remove(s.drop_last(), j, path);
        if path == s[j].0@ {
            assert(s.last().0@ != path);
        }
    }
}

/// Replaces the record for `path`, or adds one.
fn upsert(entries: &mut Vec<(String, i64)>, path: String, minutes: i64)
    requires
        entries_wf(old(entries)@),
        0 <= minutes <= MAX_STAMP_MINUTES,
        bom_free(path@),
    ensures
        entries_wf(final(entries)@),
        forall|p: Seq<char>| #[trigger]
            lookup(final(entries)@, p) == if p == path@ {
                Some(minutes)
            } else {
                lookup(old(entries)@, p)
            },
{
    let ghost s0 = entries@;
    let mut j: usize = 0;
    let mut found: bool = false;
    while j < entries.len() && !found
        invariant
            entries@ == s0,
            j <= s0.len(),
            !found ==> forall|k: int| 0 <= k < j ==> (#[trigger] s0[k].0)@ != path@,
            found ==> j < s0.len() && s0[j as int].0@ == path@,
        decreases s0.len() - j, (if found { 0int } else { 1int }),
    {
        if str_eq(entries[j].0.as_str(), path.as_str()) {
            found = true;
        } else {
            j += 1;
        }
    }
    if found {
        let _old_entry = entries.remove(j);
    }
    let ghost s1 = entries@;
    proof {
        if found {
            assert(s1 == s0.remove(j as int));
            assert forall|k: int| 0 <= k < s1.len() implies s1[k] == (if k < j {
                s0[k]
            } else {
                s0[k + 1]
            }) by {}
            // After the removal no record carries `path`, and the
            // entries stay well-formed.
            assert forall|k: int| 0 <= k < s1.len() implies (#[trigger] s1[k].0)@ != path@ by {}
            assert(entries_wf(s1));
            assert forall|p: Seq<char>| p != path@ implies #[trigger] lookup(s1, p) == lookup(
                s0,
                p,
            ) by {
                lemma_lookup_remove(s0, j as int, p);
            }
        } else {
            assert forall|p: Seq<char>| p != path@ implies #[trigger] lookup(s1, p) == lookup(
                s0,
                p,
            ) by {}
        }
        lemma_lookup_absent(s1, path@);
    }
    entries.push((path, minutes));
    proof {
        let s2 = entries@;
        assert(s2.drop_last() =~= s1);
        assert(s2.last() == (path, minutes));
        assert(entries_wf(s2)) by {
            assert forall|i: int, k: int| 0 <= i < k < s2.len() implies s2[i].0@ != s2[k].0@ by {
                if k < s2.len() - 1 {
                    assert(s2[i] == s1[i]);
                    assert(s2[k] == s1[k]);
                } else {
                    assert(s2[i] == s1[i]);
                }
            }
        }
        assert forall|p: Seq<char>| true implies #[trigger] lookup(s2, p) == (if p == path@ {
            Some(minutes)
        } else {
            lookup(s0, p)
        }) by {
            if p != path@ {
                assert(lookup(s2, p) == lookup(s1, p));
            }
        }
    }
}

/// Durable record of each target's last rotation time, held as one
/// record per path.
pub struct RotationRecorder {
    pub entries: Vec<(String, i64)>,
    pub updated: bool,
}

impl RotationRecorder {
    pub open spec fn wf(self) -> bool {
        entries_wf(self.entries@)
    }

    /// The store an absent state file stands for: nothing ever rotated.
    pub fn empty() -> (r: RotationRecorder)
        ensures
            r.wf(),
            !r.updated,
            forall|p: Seq<char>| #[trigger] lookup(r.entries@, p) == None::<i64>,
    {
        RotationRecorder { entries: Vec::new(), updated: false }
    }

    /// Reads the store back from the bytes of the state file. An
    /// unreadable container is an error; a record whose timestamp does
    /// not parse is passed over, as if that path had never been rotated.
    pub fn new(data: &Vec<u8>) -> (r: Option<RotationRecorder>)
        ensures
            r is Some <==> csv_parse(data@) is Some,
            r matches Some(st) ==> st.wf() && !st.updated && (csv_parse(data@) matches Some(rows)
                && forall|p: Seq<char>| #[trigger] lookup(st.entries@, p) == rows_lookup(rows, p)),
    {
        match csv_decode(data) {
            Option::None => None,
            Option::Some(rows) => {
                let ghost rs = rows_view(rows@);
                let mut st = RotationRecorder { entries: Vec::new(), updated: false };
                let mut i: usize = 0;
                while i < rows.len()
                    invariant
                        entries_wf(st.entries@),
                        !st.updated,
                        i <= rows@.len(),
                        rs == rows_view(rows@),
                        rs.len() == rows@.len(),
                        forall|p: Seq<char>| #[trigger]
                            lookup(st.entries@, p) == rows_lookup(rs.take(i as int), p),
                    decreases rows@.len() - i,
                {
                    let pair = &rows[i];
                    let ghost prev = st.entries@;
                    let mut kept: bool = false;
                    match parse_stored_minutes(pair.1.as_str()) {
                        Option::Some(m) => {
                            if crate::csvio::bom_free_exec(pair.0.as_str()) {
                                upsert(&mut st.entries, pair.0.clone(), m);
                                kept = true;
                            }
                        },
                        Option::None => {},
                    }
                    proof {
                        assert(rs[i as int] == (pair.0@, pair.1@));
                        assert(rs.take(i + 1).drop_last() =~= rs.take(i as int));
                        assert(rs.take(i + 1).last() == rs[i as int]);
                        if kept {
                            assert(row_ok(rs[i as int]));
                        } else {
                            assert(!row_ok(rs[i as int]));
                            assert(st.entries@ == prev);
                        }
                    }
                    i += 1;
                }
                proof {
                    assert(rs.take(rows@.len() as int) =~= rs);
                }
                Some(st)
            },
        }
    }

    /// The recorded last rotation of `path`, in whole minutes since the
    /// Unix epoch; `None` when the path was never rotated.
    pub fn last_rotation_time(&self, path: &str) -> (r: Option<i64>)
        requires
            self.wf(),
        ensures
            r == lookup(self.entries@, path@),
            r matches Some(m) ==> 0 <= m <= MAX_STAMP_MINUTES,
    {
        let mut j: usize = 0;
        while j < self.entries.len()
            invariant
                self.wf(),
                j <= self.entries@.len(),
                forall|k: int| 0 <= k < j ==> (#[trigger] self.entries@[k].0)@ != path@,
            decreases self.entries@.len() - j,
        {
            if str_eq(self.entries[j].0.as_str(), path) {
                proof {
                    lemma_lookup_present(self.entries@, j as int);
                }
                return Some(self.entries[j].1);
            }
            j += 1;
        }
        proof {
            lemma_lookup_absent(self.entries@, path@);
        }
        None
    }

    /// Records that `path` was rotated at `minutes`; later calls for the
    /// same path keep only the latest time.
    pub fn update_rotation_time(&mut self, path: String, minutes: i64)
        requires
            old(self).wf(),
            0 <= minutes <= MAX_STAMP_MINUTES,
            bom_free(path@),
        ensures
            final(self).wf(),
            final(self).updated,
            forall|p: Seq<char>| #[trigger]
                lookup(final(self).entries@, p) == if p == path@ {
                    Some(minutes)
                } else {
                    lookup(old(self).entries@, p)
                },
    {
        upsert(&mut self.entries, path, minutes);
        self.updated = true;
    }

    /// The bytes to persist, or `None` when nothing changed during the
    /// run and the state file may stay as it is. The bytes read back to
    /// exactly the recorded mapping.
    pub fn save(&self) -> (r: Option<Vec<u8>>)
        requires
            self.wf(),
        ensures
            r is Some <==> self.updated,
            r matches Some(b) ==> (csv_parse(b@) matches Some(rows) && forall|p: Seq<char>|
                #[trigger] rows_lookup(rows, p) == lookup(self.entries@, p)),
    {
        if !self.updated {
            return None;
        }
        let mut rows: Vec<(String, String)> = Vec::new();
        let mut i: usize = 0;
        while i < self.entries.len()
            invariant
                self.wf(),
                i <= self.entries@.len(),
                rows@.len() == i,
                forall|k: int| 0 <= k < i ==> (#[trigger] rows@[k]).0@ == self.entries@[k].0@
                    && stored_minutes(rows@[k].1@) == Some(self.entries@[k].1),
            decreases self.entries@.len() - i,
        {
            let e = &self.entries[i];
            let stamp = format_stored_minutes(e.1);
            rows.push((e.0.clone(), stamp));
            i += 1;
        }
        let bytes = csv_encode(&rows);
        proof {
            lemma_store_round_trip(self.entries@, rows_view(rows@));
        }
        Some(bytes)
    }
}

/// Round trip of the state store: records written for well-formed
/// entries read back, record by record, to exactly the mapping that was
/// written; a path without a record still resolves to nothing.
pub proof fn lemma_store_round_trip(entries: Seq<(String, i64)>, rows: Seq<(Seq<char>, Seq<char>)>)
    requires
        entries_wf(entries),
        rows.len() == entries.len(),
        forall|i: int| 0 <= i < entries.len() ==> (#[trigger] rows[i]).0 == entries[i].0@
            && stored_minutes(rows[i].1) == Some(entries[i].1),
    ensures
        forall|p: Seq<char>| #[trigger] rows_lookup(rows, p) == lookup(entries, p),
    decreases entries.len(),
{
    if entries.len() == 0 {
        assert forall|p: Seq<char>| #[trigger] rows_lookup(rows, p) == lookup(entries, p) by {
            assert(rows_lookup(rows, p) == None::<i64>);
            assert(lookup(entries, p) == None::<i64>);
        }
    } else {
        assert(rows.drop_last().len() == entries.drop_last().len());
        assert(forall|i: int| 0 <= i < entries.drop_last().len() ==> entries.drop_last()[i]
            == entries[i]);
        assert(forall|i: int| 0 <= i < rows.drop_last().len() ==> rows.drop_last()[i] == rows[i]);
        lemma_store_round_trip(entries.drop_last(), rows.drop_last());
        let last = entries.len() - 1;
        assert(row_ok(rows[last]));
        assert(rows.last() == rows[last]);
        assert(entries.last() == entries[last]);
        assert forall|p: Seq<char>| #[trigger] rows_lookup(rows, p) == lookup(entries, p) by {
            if p == rows.last().0 {
                assert(rows_lookup(rows, p) == stored_minutes(rows.last().1));
                assert(entries.last().0@ == p);
                assert(lookup(entries, p) == Some(entries.last().1));
            } else {
                assert(entries.last().0@ != p);
                assert(rows_lookup(rows, p) == rows_lookup(rows.drop_last(), p));
                assert(lookup(entries, p) == lookup(entries.drop_last(), p));
            }
        }
    }
}

} // verus!
