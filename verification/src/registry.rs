//! The agent registry and dispatch broadcaster: a bag of anonymous per-agent
//! delivery channels, each an independently buffered, bounded FIFO queue.
//! Broadcasting is best-effort publish: a full or closed channel drops that
//! one delivery and never stalls delivery to the other agents.

use vstd::prelude::*;

use crate::command::{Command, CommandView};

verus! {

/// Mathematical model of a delivery channel: the queued commands in FIFO
/// order, the bound the channel was created with, and whether it still
/// accepts deliveries.
pub struct ChannelModel {
    pub queued: Seq<CommandView>,
    pub cap: nat,
    pub open: bool,
}

/// What one best-effort delivery does to a channel: an open channel with a
/// free slot takes the command at the back of its queue; a full or closed
/// channel is left unchanged.
pub open spec fn delivered(ch: ChannelModel, c: CommandView) -> ChannelModel {
    if ch.open && ch.queued.len() < ch.cap {
        ChannelModel { queued: ch.queued.push(c), ..ch }
    } else {
        ch
    }
}

/// One agent's outbound delivery channel: a bounded FIFO buffer of commands.
pub struct Channel {
    buf: Vec<Command>,
    cap: usize,
    open: bool,
}

impl View for Channel {
    type V = ChannelModel;

    closed spec fn view(&self) -> ChannelModel {
        ChannelModel {
            queued: self.buf@.map_values(|c: Command| c@),
            cap: self.cap as nat,
            open: self.open,
        }
    }
}

impl Channel {
    /// The buffer never exceeds the bound.
    pub open spec fn wf(&self) -> bool {
        self@.queued.len() <= self@.cap
    }

    /// A fresh, empty, open channel with the given bound.
    pub fn new(cap: usize) -> (r: Channel)
        ensures
            r@ == (ChannelModel { queued: Seq::<CommandView>::empty(), cap: cap as nat, open: true }),
            r.wf(),
    {
        let r = Channel { buf: Vec::new(), cap, open: true };
        proof {
            assert(r@.queued =~= Seq::<CommandView>::empty());
        }
        r
    }

    /// Best-effort, non-blocking delivery of one command.
    pub fn try_send(&mut self, c: Command) -> (accepted: bool)
        requires
            old(self).wf(),
        ensures
            final(self).wf(),
            final(self)@ == delivered(old(self)@, c@),
            accepted == (old(self)@.open && old(self)@.queued.len() < old(self)@.cap),
    {
        if self.open && self.buf.len() < self.cap {
            self.buf.push(c);
            proof {
                assert(self@.queued =~= old(self)@.queued.push(c@));
            }
            true
        } else {
            false
        }
    }

    /// Takes the oldest queued command, if any.
    pub fn recv(&mut self) -> (r: Option<Command>)
        requires
            old(self).wf(),
        ensures
            final(self).wf(),
            final(self)@.cap == old(self)@.cap,
            final(self)@.open == old(self)@.open,
            old(self)@.queued.len() == 0 ==> r is None && final(self)@ == old(self)@,
            old(self)@.queued.len() > 0 ==> r is Some && r->0@ == old(self)@.queued[0]
                && final(self)@.queued == old(self)@.queued.drop_first(),
    {
        if self.buf.len() == 0 {
            proof {
                assert(self@ =~= old(self)@);
            }
            None
        } else {
            let c = self.buf.remove(0);
            proof {
                assert(self@.queued =~= old(self)@.queued.drop_first());
            }
            Some(c)
        }
    }

    /// Marks the channel closed and drops whatever it still buffered: no
    /// further delivery is accepted and nothing is held for the gone agent.
    pub fn close(&mut self)
        requires
            old(self).wf(),
        ensures
            final(self).wf(),
            final(self)@ == (ChannelModel {
                queued: Seq::<CommandView>::empty(),
                cap: old(self)@.cap,
                open: false,
            }),
    {
        self.open = false;
        self.buf.clear();
        proof {
            assert(self@.queued =~= Seq::<CommandView>::empty());
        }
    }
}

/// The set of currently connected agents' delivery channels. Agents are
/// anonymous: the registry tracks endpoints, not identities.
pub struct Registry {
    channels: Vec<Channel>,
}

impl View for Registry {
    type V = Seq<ChannelModel>;

    closed spec fn view(&self) -> Seq<ChannelModel> {
        self.channels@.map_values(|ch: Channel| ch@)
    }
}

impl Registry {
    /// Every channel respects its bound.
    pub open spec fn wf(&self) -> bool {
        forall|i: int| 0 <= i < self@.len() ==> #[trigger] self@[i].queued.len() <= self@[i].cap
    }

    /// An empty registry.
    pub fn new() -> (r: Registry)
        ensures
            r@ == Seq::<ChannelModel>::empty(),
            r.wf(),
    {
        let r = Registry { channels: Vec::new() };
        proof {
            assert(r@ =~= Seq::<ChannelModel>::empty());
        }
        r
    }

    /// Adds a new agent's delivery endpoint with the given bound; always
    /// succeeds and returns its slot. The fresh channel starts empty: an
    /// agent registering after a broadcast never receives the commands
    /// broadcast before its registration.
    pub fn register(&mut self, cap: usize) -> (idx: usize)
        requires
            old(self).wf(),
        ensures
            final(self).wf(),
            idx == old(self)@.len(),
            final(self)@ == old(self)@.push(
                ChannelModel { queued: Seq::<CommandView>::empty(), cap: cap as nat, open: true },
            ),
    {
        let idx = self.channels.len();
        let ch = Channel::new(cap);
        self.channels.push(ch);
        proof {
            assert(self@ =~= old(self)@.push(ch@));
        }
        idx
    }

    /// Number of registered delivery endpoints.
    pub fn agent_count(&self) -> (r: usize)
        ensures
            r == self@.len(),
    {
        self.channels.len()
    }

    /// Delivers a copy of the command, best-effort, to every currently
    /// registered endpoint: each open channel with a free slot takes the
    /// command; a saturated or closed channel drops that one delivery, and
    /// the rest still receive it.
    pub fn broadcast(&mut self, c: &Command)
        requires
            old(self).wf(),
        ensures
            final(self).wf(),
            final(self)@.len() == old(self)@.len(),
            forall|i: int| 0 <= i < old(self)@.len() ==> final(self)@[i] == delivered(
                old(self)@[i],
                c@,
            ),
    {
        let n = self.channels.len();
        let mut i: usize = 0;
        while i < n
            invariant
                n == self.channels.len(),
                i <= n,
                self@.len() == old(self)@.len(),
                self.wf(),
                forall|j: int| 0 <= j < i ==> self@[j] == delivered(old(self)@[j], c@),
                forall|j: int| i <= j < n ==> self@[j] == old(self)@[j],
            decreases n - i,
        {
            let ghost before = self@;
            let ghost chans_before = self.channels@;
            let copy = c.clone();
            let ch = &mut self.channels[i];
            proof {
                assert(before[i as int].queued.len() <= before[i as int].cap);
                assert((*ch)@ == before[i as int]);
            }
            let _ = ch.try_send(copy);
            proof {
                assert(self.channels@ =~= chans_before.update(i as int, self.channels@[i as int]));
                assert forall|j: int| 0 <= j < n && j != i implies #[trigger] self@[j]
                    == before[j] by {
                    assert(self.channels@[j] == chans_before[j]);
                }
                assert(self@[i as int] == delivered(before[i as int], c@));
            }
            i += 1;
        }
    }

    /// Takes the oldest queued command of the channel in the given slot.
    pub fn recv_from(&mut self, idx: usize) -> (r: Option<Command>)
        requires
            old(self).wf(),
            idx < old(self)@.len(),
        ensures
            final(self).wf(),
            final(self)@.len() == old(self)@.len(),
            forall|j: int| 0 <= j < old(self)@.len() && j != idx ==> final(self)@[j]
                == old(self)@[j],
            final(self)@[idx as int].cap == old(self)@[idx as int].cap,
            final(self)@[idx as int].open == old(self)@[idx as int].open,
            old(self)@[idx as int].queued.len() == 0 ==> r is None && final(self)@[idx as int]
                == old(self)@[idx as int],
            old(self)@[idx as int].queued.len() > 0 ==> r is Some
                && r->0@ == old(self)@[idx as int].queued[0]
                && final(self)@[idx as int].queued == old(self)@[idx as int].queued.drop_first(),
    {
        let ghost before = self@;
        let ghost chans_before = self.channels@;
        let ch = &mut self.channels[idx];
        proof {
            assert(before[idx as int].queued.len() <= before[idx as int].cap);
            assert((*ch)@ == before[idx as int]);
        }
        let r = ch.recv();
        proof {
            assert(self.channels@ =~= chans_before.update(idx as int, self.channels@[idx as int]));
            assert forall|j: int| 0 <= j < before.len() && j != idx implies #[trigger] self@[j]
                == before[j] by {
                assert(self.channels@[j] == chans_before[j]);
            }
            assert(self@[idx as int] == self.channels@[idx as int]@);
        }
        r
    }

    /// Retires the channel in the given slot when its session tears down:
    /// the slot accepts no further delivery and its leftover queue is
    /// dropped, so a gone agent holds no memory beyond the empty slot.
    pub fn close_channel(&mut self, idx: usize)
        requires
            old(self).wf(),
            idx < old(self)@.len(),
        ensures
            final(self).wf(),
            final(self)@ == old(self)@.update(
                idx as int,
                ChannelModel {
                    queued: Seq::<CommandView>::empty(),
                    cap: old(self)@[idx as int].cap,
                    open: false,
                },
            ),
    {
        let ghost before = self@;
        let ghost chans_before = self.channels@;
        let ch = &mut self.channels[idx];
        proof {
            assert(before[idx as int].queued.len() <= before[idx as int].cap);
            assert((*ch)@ == before[idx as int]);
        }
        ch.close();
        proof {
            assert(self.channels@ =~= chans_before.update(idx as int, self.channels@[idx as int]));
            assert forall|j: int| 0 <= j < before.len() && j != idx implies #[trigger] self@[j]
                == before[j] by {
                assert(self.channels@[j] == chans_before[j]);
            }
            assert(self@ =~= old(self)@.update(
                idx as int,
                ChannelModel {
                    queued: Seq::<CommandView>::empty(),
                    cap: old(self)@[idx as int].cap,
                    open: false,
                },
            ));
        }
    }
}

/// No head-of-line blocking across agents: after a broadcast, every open
/// channel with a free slot other than a saturated or closed one `j` has the
/// command at the back of its queue, while `j` itself is left unchanged.
/// The hypotheses are exactly what `Registry::broadcast` ensures.
pub proof fn lemma_saturated_channel_is_isolated(
    pre: Seq<ChannelModel>,
    post: Seq<ChannelModel>,
    c: CommandView,
    j: int,
)
    requires
        post.len() == pre.len(),
        forall|i: int| 0 <= i < pre.len() ==> post[i] == delivered(pre[i], c),
        0 <= j < pre.len(),
    ensures
        forall|i: int|
            #![trigger post[i]]
            0 <= i < pre.len() && i != j && pre[i].open && pre[i].queued.len() < pre[i].cap
                ==> post[i].queued == pre[i].queued.push(c),
        !(pre[j].open && pre[j].queued.len() < pre[j].cap) ==> post[j] == pre[j],
{
}

} // verus!
