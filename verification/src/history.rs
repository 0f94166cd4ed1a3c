use crate::cache::opt_field;
use crate::json::JVal;
use crate::json::jas_str;
use crate::json::jget;
use crate::json::jget_str;
use crate::json::jget_u64;
use crate::json::json_of;
use crate::json::parse_json;
use crate::json::spec_get_str;
use crate::json::spec_get_u64;
use crate::json::spec_str;
use crate::models::HistoryEntry;
use vstd::prelude::*;

verus! {

/// Whether a JSON value reads as one chronological-log entry: the text
/// and the instant are required, the project and the session are
/// optional and may be null.
pub open spec fn hist_json_ok(v: JVal) -> bool {
    &&& spec_get_str(v, "display"@) is Some
    &&& spec_get_u64(v, "timestamp"@) is Some
    &&& match opt_field(v, "project"@) {
        Some(p) => spec_str(p) is Some,
        None => true,
    }
    &&& match opt_field(v, "sessionId"@) {
        Some(s) => spec_str(s) is Some,
        None => true,
    }
}

/// The entry a readable value holds.
pub open spec fn hist_repr(e: HistoryEntry, v: JVal) -> bool {
    &&& spec_get_str(v, "display"@) == Some(e.display@)
    &&& spec_get_u64(v, "timestamp"@) == Some(e.timestamp)
    &&& match opt_field(v, "project"@) {
        Some(p) => e.project matches Some(x) && spec_str(p) == Some(x@),
        None => e.project is None,
    }
    &&& match opt_field(v, "sessionId"@) {
        Some(s) => e.session_id matches Some(x) && spec_str(s) == Some(x@),
        None => e.session_id is None,
    }
}

/// What one read line yields: nothing for a line that is not valid JSON
/// or not a readable entry; otherwise the entry it holds.
pub open spec fn hist_line_ok(l: Seq<char>, pick: Option<HistoryEntry>) -> bool {
    match json_of(l) {
        None => pick is None,
        Some(v) => if hist_json_ok(v) {
            pick matches Some(e) && hist_repr(e, v)
        } else {
            pick is None
        },
    }
}

/// The entries of a run of per-line readings, in order, skips left out.
pub open spec fn cat_hist(picks: Seq<Option<HistoryEntry>>) -> Seq<HistoryEntry>
    decreases picks.len(),
{
    if picks.len() == 0 {
        Seq::empty()
    } else {
        cat_hist(picks.drop_last()) + (match picks.last() {
            Some(e) => seq![e],
            None => Seq::empty(),
        })
    }
}

/// Places an entry behind every entry at least as recent, so that
/// entries of one instant keep their original order.
pub open spec fn insert_desc(e: HistoryEntry, s: Seq<HistoryEntry>) -> Seq<HistoryEntry>
    decreases s.len(),
{
    if s.len() == 0 {
        seq![e]
    } else if s[0].timestamp >= e.timestamp {
        seq![s[0]] + insert_desc(e, s.drop_first())
    } else {
        seq![e] + s
    }
}

/// The newest-first ordering of the entries, ties kept in given order.
pub open spec fn sort_hist(s: Seq<HistoryEntry>) -> Seq<HistoryEntry>
    decreases s.len(),
{
    if s.len() == 0 {
        Seq::empty()
    } else {
        insert_desc(s.last(), sort_hist(s.drop_last()))
    }
}

/// Inserting at the first index whose entry is older is what
/// `insert_desc` does.
proof fn lemma_insert_desc_at(e: HistoryEntry, s: Seq<HistoryEntry>, p: int)
    requires
        0 <= p <= s.len(),
        forall|k: int| 0 <= k < p ==> s[k].timestamp >= e.timestamp,
        p < s.len() ==> s[p].timestamp < e.timestamp,
    ensures
        insert_desc(e, s) == s.insert(p, e),
    decreases s.len(),
{
    if p == 0 {
        assert(insert_desc(e, s) =~= s.insert(0, e));
    } else {
        assert(s[0].timestamp >= e.timestamp);
        assert(forall|k: int| 0 <= k < p - 1 ==> s.drop_first()[k] == s[k + 1]);
        lemma_insert_desc_at(e, s.drop_first(), p - 1);
        assert(insert_desc(e, s) =~= s.insert(p, e)) by {
            assert(insert_desc(e, s) == seq![s[0]] + s.drop_first().insert(p - 1, e));
        }
    }
}

/// Copies an optional text.
fn clone_opt_string(o: &Option<String>) -> (r: Option<String>)
    ensures
        r == *o,
{
    match o {
        Some(s) => Some(s.clone()),
        None => None,
    }
}

/// Copies one entry.
fn clone_hist(e: &HistoryEntry) -> (r: HistoryEntry)
    ensures
        r == *e,
{
    HistoryEntry {
        display: e.display.clone(),
        timestamp: e.timestamp,
        project: clone_opt_string(&e.project),
        session_id: clone_opt_string(&e.session_id),
    }
}

/// Reads one chronological-log line, as `hist_line_ok` describes.
fn parse_hist_line(l: &str) -> (r: Option<HistoryEntry>)
    ensures
        hist_line_ok(l@, r),
{
    let v = match parse_json(l) {
        Some(v) => v,
        None => {
            return None;
        },
    };
    let display = match jget_str(&v, "display") {
        Some(d) => d.clone(),
        None => {
            return None;
        },
    };
    let timestamp = match jget_u64(&v, "timestamp") {
        Some(t) => t,
        None => {
            return None;
        },
    };
    let project: Option<String> = match jget(&v, "project") {
        Some(p) => match p {
            JVal::Null => None,
            _ => match jas_str(p) {
                Some(s) => Some(s.clone()),
                None => {
                    return None;
                },
            },
        },
        None => None,
    };
    let session_id: Option<String> = match jget(&v, "sessionId") {
        Some(p) => match p {
            JVal::Null => None,
            _ => match jas_str(p) {
                Some(s) => Some(s.clone()),
                None => {
                    return None;
                },
            },
        },
        None => None,
    };
    Some(HistoryEntry { display, timestamp, project, session_id })
}

/// Reads the chronological activity log: every readable line becomes
/// one entry, the entries stand newest first with ties in file order,
/// and at most `limit` of them are returned. Unreadable lines are
/// skipped silently.
pub fn get_history(lines: &Vec<String>, limit: usize) -> (r: Vec<HistoryEntry>)
    ensures
        exists|picks: Seq<Option<HistoryEntry>>|
            {
                &&& #[trigger] cat_hist(picks).len() >= 0
                &&& picks.len() == lines@.len()
                &&& forall|i: int|
                    0 <= i < picks.len() ==> hist_line_ok(lines@[i]@, #[trigger] picks[i])
                &&& r@ == sort_hist(cat_hist(picks)).take(
                    if limit <= cat_hist(picks).len() {
                        limit as int
                    } else {
                        cat_hist(picks).len() as int
                    },
                )
            },
{
    let mut entries: Vec<HistoryEntry> = Vec::new();
    let ghost mut picks: Seq<Option<HistoryEntry>> = Seq::empty();
    let mut i: usize = 0;
    while i < lines.len()
        invariant
            0 <= i <= lines@.len(),
            picks.len() == i,
            forall|k: int| 0 <= k < i ==> hist_line_ok(lines@[k]@, #[trigger] picks[k]),
            entries@ == cat_hist(picks),
        decreases lines@.len() - i,
    {
        let p = parse_hist_line(lines[i].as_str());
        let ghost gp = p;
        let ghost prevp = picks;
        proof {
            picks = picks.push(gp);
        }
        match p {
            Some(e) => {
                entries.push(e);
            },
            None => {},
        }
        proof {
            assert(picks.drop_last() =~= prevp);
            assert(picks.last() == gp);
            match gp {
                Some(e) => {
                    assert(entries@ =~= cat_hist(prevp) + seq![e]);
                },
                None => {
                    assert(entries@ =~= cat_hist(prevp) + Seq::<HistoryEntry>::empty());
                },
            }
            assert(entries@ == cat_hist(picks));
        }
        i += 1;
    }
    let ghost all = entries@;
    let mut out: Vec<HistoryEntry> = Vec::new();
    proof {
        assert(all.take(0) =~= Seq::<HistoryEntry>::empty());
    }
    let mut j: usize = 0;
    while j < entries.len()
        invariant
            0 <= j <= all.len(),
            entries@ == all,
            out@.len() == j,
            out@ == sort_hist(all.take(j as int)),
        decreases all.len() - j,
    {
        proof {
            assert(all.take(j + 1).drop_last() =~= all.take(j as int));
            assert(all.take(j + 1).last() == all[j as int]);
        }
        let e = clone_hist(&entries[j]);
        let mut p: usize = 0;
        while p < out.len()
            invariant
                0 <= p <= out@.len(),
                forall|k: int| 0 <= k < p ==> out@[k].timestamp >= e.timestamp,
            decreases out@.len() - p,
        {
            if out[p].timestamp < e.timestamp {
                break;
            }
            p += 1;
        }
        proof {
            lemma_insert_desc_at(e, out@, p as int);
        }
        out.insert(p, e);
        j += 1;
    }
    proof {
        assert(all.take(all.len() as int) =~= all);
    }
    if limit < out.len() {
        out.truncate(limit);
        proof {
            assert(out@ =~= sort_hist(all).take(limit as int));
        }
    } else {
        proof {
            assert(sort_hist(all).take(out@.len() as int) =~= out@);
        }
    }
    proof {
        assert(cat_hist(picks) == all);
    }
    out
}

} // verus!
