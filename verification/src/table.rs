//! Small tables: rows of a key and a value, one row per key, in the order in which keys came.
use crate::agent::AgentId;
use crate::ids::{TaskId, TeamId};
use vstd::prelude::*;

verus! {

/// The first position from `i` on whose key is `k`.
pub open spec fn row_at<K, V>(rows: Seq<(K, V)>, k: K, i: int) -> Option<int>
    decreases rows.len() - i,
{
    if i < 0 || i >= rows.len() {
        None
    } else if rows[i].0 == k {
        Some(i)
    } else {
        row_at(rows, k, i + 1)
    }
}

/// The value under a key.
pub open spec fn row<K, V>(rows: Seq<(K, V)>, k: K) -> Option<V> {
    match row_at(rows, k, 0) {
        Some(i) => Some(rows[i].1),
        None => None,
    }
}

/// The table with the value under a key replaced, or with a new last row.
pub open spec fn with_row<K, V>(rows: Seq<(K, V)>, k: K, v: V) -> Seq<(K, V)> {
    match row_at(rows, k, 0) {
        Some(i) => rows.update(i, (k, v)),
        None => rows.push((k, v)),
    }
}

/// The table without the row of a key.
pub open spec fn without_row<K, V>(rows: Seq<(K, V)>, k: K) -> Seq<(K, V)> {
    match row_at(rows, k, 0) {
        Some(i) => rows.remove(i),
        None => rows,
    }
}

/// A row that is found holds the key.
pub proof fn lemma_row_at<K, V>(rows: Seq<(K, V)>, k: K, i: int)
    requires
        i >= 0,
    ensures
        match row_at(rows, k, i) {
            Some(j) => i <= j < rows.len() && rows[j].0 == k && forall|n: int|
                i <= n < j ==> (#[trigger] rows[n]).0 != k,
            None => forall|n: int| i <= n < rows.len() ==> (#[trigger] rows[n]).0 != k,
        },
    decreases rows.len() - i,
{
    if i < rows.len() {
        lemma_row_at(rows, k, i + 1);
    }
}

/// Where the keys are the same, a key stands at the same place.
pub proof fn lemma_same_keys<K, V, W>(a: Seq<(K, V)>, b: Seq<(K, W)>, k: K, i: int)
    requires
        a.len() == b.len(),
        forall|n: int| 0 <= n < a.len() ==> (#[trigger] a[n]).0 == b[n].0,
    ensures
        row_at(a, k, i) == row_at(b, k, i),
    decreases a.len() - i,
{
    if 0 <= i < a.len() {
        lemma_same_keys(a, b, k, i + 1);
    }
}

/// A position found earlier stays the first one.
proof fn lemma_row_is<K, V>(rows: Seq<(K, V)>, k: K, i: int, j: int)
    requires
        0 <= i <= j < rows.len(),
        rows[j].0 == k,
        forall|n: int| i <= n < j ==> (#[trigger] rows[n]).0 != k,
    ensures
        row_at(rows, k, i) == Some(j),
    decreases j - i,
{
    if i < j {
        assert(rows[i].0 != k);
        lemma_row_is(rows, k, i + 1, j);
    }
}

/// What is written under a key is read under that key, and nothing else changes.
pub proof fn read_back<K, V>(rows: Seq<(K, V)>, k: K, v: V, other: K)
    ensures
        row(with_row(rows, k, v), k) == Some(v),
        other != k ==> row(with_row(rows, k, v), other) == row(rows, other),
{
    let after = with_row(rows, k, v);
    lemma_row_at(rows, k, 0);
    lemma_row_at(rows, other, 0);
    lemma_row_at(after, other, 0);
    match row_at(rows, k, 0) {
        Some(i) => {
            lemma_row_is(after, k, 0, i);
            if other != k {
                lemma_same_keys(rows, after, other, 0);
            }
        },
        None => {
            lemma_row_is(after, k, 0, rows.len() as int);
            if other != k && row_at(rows, other, 0) is Some {
                lemma_row_is(after, other, 0, row_at(rows, other, 0)->0);
            }
        },
    }
}

/// The position of an agent's row.
pub fn agent_row<V>(rows: &Vec<(AgentId, V)>, k: AgentId) -> (r: Option<usize>)
    ensures
        match r {
            Some(i) => row_at(rows@, k, 0) == Some(i as int) && i < rows.len() && rows@[i as int].0
                == k,
            None => row_at(rows@, k, 0) is None,
        },
{
    let mut i: usize = 0;
    while i < rows.len()
        invariant
            0 <= i <= rows.len(),
            row_at(rows@, k, 0) == row_at(rows@, k, i as int),
        decreases rows.len() - i,
    {
        if rows[i].0 == k {
            return Some(i);
        }
        i = i + 1;
    }
    None
}

/// The position of a task's row.
pub fn task_row<V>(rows: &Vec<(TaskId, V)>, k: TaskId) -> (r: Option<usize>)
    ensures
        match r {
            Some(i) => row_at(rows@, k, 0) == Some(i as int) && i < rows.len() && rows@[i as int].0
                == k,
            None => row_at(rows@, k, 0) is None,
        },
{
    let mut i: usize = 0;
    while i < rows.len()
        invariant
            0 <= i <= rows.len(),
            row_at(rows@, k, 0) == row_at(rows@, k, i as int),
        decreases rows.len() - i,
    {
        if rows[i].0 == k {
            return Some(i);
        }
        i = i + 1;
    }
    None
}

/// Puts a value under a task.
pub fn put_task<V>(rows: &mut Vec<(TaskId, V)>, k: TaskId, v: V)
    ensures
        final(rows)@ == with_row(old(rows)@, k, v),
{
    match task_row(rows, k) {
        Some(i) => {
            rows.set(i, (k, v));
        },
        None => {
            rows.push((k, v));
        },
    }
}

/// Rows by team, with the members in specifications.
pub open spec fn team_rows(rows: Seq<(TeamId, Vec<AgentId>)>) -> Seq<(Seq<char>, Seq<AgentId>)> {
    Seq::new(rows.len(), |i: int| (rows[i].0@, rows[i].1@))
}

/// The position of a team's row.
pub fn team_row(rows: &Vec<(TeamId, Vec<AgentId>)>, k: &TeamId) -> (r: Option<usize>)
    ensures
        match r {
            Some(i) => row_at(team_rows(rows@), k@, 0) == Some(i as int) && i < rows.len()
                && rows@[i as int].0@ == k@,
            None => row_at(team_rows(rows@), k@, 0) is None,
        },
{
    let mut i: usize = 0;
    while i < rows.len()
        invariant
            0 <= i <= rows.len(),
            row_at(team_rows(rows@), k@, 0) == row_at(team_rows(rows@), k@, i as int),
        decreases rows.len() - i,
    {
        if rows[i].0.same(k) {
            return Some(i);
        }
        i = i + 1;
    }
    None
}

} // verus!
