//! The command ledger: an ordered, append-only record of all commands and
//! their current status. A result arriving for an identifier that is already
//! present replaces that entry's status in place; otherwise the command is
//! appended as a new entry. Built this way from empty, the ledger holds at
//! most one entry per identifier.

use vstd::prelude::*;

use crate::command::{Command, CommandView, StatusView};

verus! {

/// No two entries share an identifier.
pub open spec fn ids_unique(s: Seq<CommandView>) -> bool {
    forall|i: int, j: int| 0 <= i < j < s.len() ==> s[i].id != s[j].id
}

/// Whether some entry carries the identifier.
pub open spec fn has_id(s: Seq<CommandView>, id: Seq<char>) -> bool {
    exists|i: int| 0 <= i < s.len() && s[i].id == id
}

/// The ledger's authoritative entry for `id`: the unique entry carrying that
/// identifier, if one exists.
pub open spec fn entry_for(s: Seq<CommandView>, id: Seq<char>) -> Option<CommandView> {
    if exists|i: int| 0 <= i < s.len() && s[i].id == id {
        Some(s[choose|i: int| 0 <= i < s.len() && s[i].id == id])
    } else {
        None
    }
}

/// What one `append_or_update` does to the ledger's sequence: if an entry
/// with the command's identifier exists, that entry keeps its identifier and
/// text and takes the command's status; otherwise the command is appended.
pub open spec fn applied(pre: Seq<CommandView>, c: CommandView, post: Seq<CommandView>) -> bool {
    if exists|i: int| 0 <= i < pre.len() && pre[i].id == c.id {
        exists|i: int|
            0 <= i < pre.len() && #[trigger] pre[i].id == c.id && post == pre.update(
                i,
                CommandView { id: pre[i].id, cmd: pre[i].cmd, status: c.status },
            )
    } else {
        post == pre.push(c)
    }
}

/// Ordered record of all known commands and their statuses.
pub struct Ledger {
    entries: Vec<Command>,
}

impl View for Ledger {
    type V = Seq<CommandView>;

    closed spec fn view(&self) -> Seq<CommandView> {
        self.entries@.map_values(|c: Command| c@)
    }
}

impl Ledger {
    /// Every identifier occurs at most once.
    pub open spec fn wf(&self) -> bool {
        ids_unique(self@)
    }

    /// An empty ledger.
    pub fn new() -> (r: Ledger)
        ensures
            r@ == Seq::<CommandView>::empty(),
            r.wf(),
    {
        let r = Ledger { entries: Vec::new() };
        proof {
            assert(r@ =~= Seq::<CommandView>::empty());
        }
        r
    }

    /// Inserts the command: replaces the status of the entry sharing its
    /// identifier if one exists, else appends a new entry.
    pub fn append_or_update(&mut self, c: Command)
        requires
            old(self).wf(),
        ensures
            final(self).wf(),
            applied(old(self)@, c@, final(self)@),
    {
        let n = self.entries.len();
        let ghost pre = self@;
        let ghost entries0 = self.entries@;
        let mut i: usize = 0;
        while i < n
            invariant
                n == self.entries.len(),
                i <= n,
                self@ == pre,
                self.entries@ == entries0,
                pre == old(self)@,
                ids_unique(pre),
                forall|j: int| 0 <= j < i ==> pre[j].id != c@.id,
            decreases n - i,
        {
            if self.entries[i].id == c.id {
                proof {
                    assert(pre[i as int] == self.entries@[i as int]@);
                    assert(pre[i as int].id == c@.id);
                }
                let kept_id = self.entries[i].id.clone();
                let kept_cmd = self.entries[i].cmd.clone();
                let replaced = Command { id: kept_id, cmd: kept_cmd, status: c.status };
                proof {
                    assert(replaced@ == CommandView {
                        id: pre[i as int].id,
                        cmd: pre[i as int].cmd,
                        status: c@.status,
                    });
                }
                self.entries.remove(i);
                self.entries.insert(i, replaced);
                proof {
                    assert(exists|k: int| 0 <= k < pre.len() && pre[k].id == c@.id);
                    let target = pre.update(i as int, replaced@);
                    assert(self.entries@ =~= entries0.remove(i as int).insert(i as int, replaced));
                    assert(self.entries@ =~= entries0.update(i as int, replaced));
                    assert forall|j: int| 0 <= j < pre.len() implies #[trigger] self@[j] == target[j] by {
                        assert(self@[j] == self.entries@[j]@);
                        if j != i as int {
                            assert(self.entries@[j] == entries0[j]);
                            assert(pre[j] == entries0[j]@);
                        }
                    }
                    assert(self@ =~= target);
                    assert(0 <= (i as int) < pre.len() && pre[i as int].id == c@.id && self@
                        == pre.update(
                        i as int,
                        CommandView { id: pre[i as int].id, cmd: pre[i as int].cmd, status: c@.status },
                    ));
                    assert forall|p: int, q: int| 0 <= p < q < self@.len() implies self@[p].id
                        != self@[q].id by {
                        assert(self@[p].id == pre[p].id);
                        assert(self@[q].id == pre[q].id);
                    }
                }
                return ;
            }
            i += 1;
        }
        proof {
            assert(forall|j: int| 0 <= j < pre.len() ==> pre[j].id != c@.id);
        }
        self.entries.push(c);
        proof {
            assert(self@ =~= pre.push(c@));
            assert forall|p: int, q: int| 0 <= p < q < self@.len() implies self@[p].id
                != self@[q].id by {
                if q < pre.len() {
                    assert(self@[p].id == pre[p].id);
                    assert(self@[q].id == pre[q].id);
                } else {
                    assert(self@[q] == c@);
                    assert(pre[p].id != c@.id);
                }
            }
        }
    }

    /// An immutable copy of the full ordered sequence of commands, consistent
    /// as of the moment of the call.
    pub fn snapshot(&self) -> (r: Vec<Command>)
        ensures
            r@.len() == self@.len(),
            forall|i: int| 0 <= i < r@.len() ==> #[trigger] r@[i]@ == self@[i],
    {
        let n = self.entries.len();
        let mut r: Vec<Command> = Vec::new();
        let mut i: usize = 0;
        while i < n
            invariant
                n == self.entries.len(),
                i <= n,
                r@.len() == i,
                forall|j: int| 0 <= j < i ==> #[trigger] r@[j]@ == self@[j],
            decreases n - i,
        {
            r.push(self.entries[i].clone());
            i += 1;
        }
        r
    }

    /// Whether an entry with the given identifier exists.
    pub fn contains_id(&self, id: &String) -> (r: bool)
        ensures
            r == has_id(self@, id@),
    {
        let n = self.entries.len();
        let mut i: usize = 0;
        while i < n
            invariant
                n == self.entries.len(),
                i <= n,
                forall|j: int| 0 <= j < i ==> self@[j].id != id@,
            decreases n - i,
        {
            if self.entries[i].id == *id {
                proof {
                    assert(self@[i as int].id == id@);
                }
                return true;
            }
            i += 1;
        }
        false
    }

    /// Number of entries.
    pub fn len(&self) -> (r: usize)
        ensures
            r == self@.len(),
    {
        self.entries.len()
    }
}

/// After an update is applied, the ledger's view of the command's identifier
/// carries exactly the applied status, and identifiers stay unique.
pub proof fn lemma_applied_sets_status(pre: Seq<CommandView>, c: CommandView, post: Seq<CommandView>)
    requires
        ids_unique(pre),
        applied(pre, c, post),
    ensures
        ids_unique(post),
        entry_for(post, c.id) is Some,
        entry_for(post, c.id)->0.id == c.id,
        entry_for(post, c.id)->0.status == c.status,
{
    if exists|i: int| 0 <= i < pre.len() && pre[i].id == c.id {
        let i = choose|i: int|
            0 <= i < pre.len() && #[trigger] pre[i].id == c.id && post == pre.update(
                i,
                CommandView { id: pre[i].id, cmd: pre[i].cmd, status: c.status },
            );
        assert(post[i].id == c.id);
        assert(post[i].status == c.status);
        let w = choose|k: int| 0 <= k < post.len() && post[k].id == c.id;
        assert(post[w].id == c.id);
        assert forall|p: int, q: int| 0 <= p < q < post.len() implies post[p].id != post[q].id by {
            assert(pre[p].id == post[p].id || p == i);
            assert(pre[q].id == post[q].id || q == i);
            assert(post[i].id == pre[i].id);
        }
        assert(w == i);
    } else {
        let i = pre.len() as int;
        assert(post[i] == c);
        let w = choose|k: int| 0 <= k < post.len() && post[k].id == c.id;
        assert forall|p: int, q: int| 0 <= p < q < post.len() implies post[p].id != post[q].id by {
            if q < pre.len() {
                assert(post[p].id == pre[p].id);
                assert(post[q].id == pre[q].id);
            } else {
                assert(post[q] == c);
                assert(pre[p].id != c.id);
            }
        }
        assert(w == i);
    }
}

/// A pending command for an identifier followed by a terminal result for the
/// same identifier leaves the ledger's view of that identifier at exactly the
/// terminal status: no stale pending entry remains authoritative.
pub proof fn lemma_terminal_result_overrides_pending(
    s0: Seq<CommandView>,
    pending: CommandView,
    result: CommandView,
    s1: Seq<CommandView>,
    s2: Seq<CommandView>,
)
    requires
        ids_unique(s0),
        pending.status is Pending,
        result.status.is_terminal(),
        result.id == pending.id,
        applied(s0, pending, s1),
        applied(s1, result, s2),
    ensures
        ids_unique(s2),
        entry_for(s2, result.id) is Some,
        entry_for(s2, result.id)->0.status == result.status,
        entry_for(s2, result.id)->0.status.is_terminal(),
{
    lemma_applied_sets_status(s0, pending, s1);
    lemma_applied_sets_status(s1, result, s2);
}

/// Applying the same result twice is idempotent: the second application
/// leaves the whole ledger, and so its view of the result's identifier,
/// unchanged.
pub proof fn lemma_apply_idempotent(
    s0: Seq<CommandView>,
    result: CommandView,
    s1: Seq<CommandView>,
    s2: Seq<CommandView>,
)
    requires
        ids_unique(s0),
        result.status.is_terminal(),
        applied(s0, result, s1),
        applied(s1, result, s2),
    ensures
        s2 == s1,
{
    lemma_applied_sets_status(s0, result, s1);
    assert(exists|k: int| 0 <= k < s1.len() && s1[k].id == result.id) by {
        let e = entry_for(s1, result.id);
        assert(e is Some);
    }
    let w = choose|k: int|
        0 <= k < s1.len() && #[trigger] s1[k].id == result.id && s2 == s1.update(
            k,
            CommandView { id: s1[k].id, cmd: s1[k].cmd, status: result.status },
        );
    assert(s1[w].status == result.status) by {
        let v = choose|k: int| 0 <= k < s1.len() && s1[k].id == result.id;
        assert(entry_for(s1, result.id) == Some(s1[v]));
        assert(v == w) by {
            if v < w {
                assert(s1[v].id != s1[w].id);
            } else if w < v {
                assert(s1[w].id != s1[v].id);
            }
        }
    }
    assert(s2 =~= s1);
}

} // verus!
