//! One session of the daemon: the lines that a client sends are answered
//! one after the other, each reply written before the next line is worked
//! on, so that replies come in the order of their requests.

use vstd::prelude::*;
use crate::bind::Context;
use crate::request::{Action, answers, command_line, line_of, process};
use crate::text::{clone_bytes, views};

verus! {

/// The state of a session. Lines that come while a request is in work
/// wait for their turn.
pub struct Session {
    pub ctx: Context,
    /// The command lines that wait, the oldest first.
    pub waiting: Vec<Vec<u8>>,
    /// Whether a request is in work.
    pub busy: bool,
    /// How many replies have been written.
    pub answered: u64,
    /// Every command line that the session has taken, in order.
    pub lines: Ghost<Seq<Seq<u8>>>,
}

/// The work that a session hands out: the number of the line it is for,
/// counted from 0 in the order of arrival, and what is to be done.
#[derive(Debug, PartialEq, Eq)]
pub struct Work {
    pub number: u64,
    pub action: Action,
}

impl Session {
    /// The replies written, the request in work and the lines that wait
    /// make up the lines taken, in this order: the request in work is that
    /// of the line whose number is the number of replies written, and the
    /// lines that wait are those behind it.
    pub open spec fn wf(&self) -> bool {
        &&& self.lines@.len() <= u64::MAX
        &&& self.answered + (if self.busy {
            1int
        } else {
            0int
        }) + self.waiting@.len() == self.lines@.len()
        &&& !self.busy ==> self.waiting@.len() == 0
        &&& self.busy ==> views(self.waiting@) == self.lines@.skip(self.answered + 1)
    }

    /// Whether `w` is the work for line number `n` of the session.
    pub open spec fn work_for(&self, n: int, w: Work) -> bool {
        &&& 0 <= n < self.lines@.len()
        &&& w.number == n
        &&& answers(self.ctx, self.lines@[n], w.action)
    }

    /// A session that has taken no line yet.
    pub fn new(ctx: Context) -> (r: Session)
        ensures
            r.wf(),
            r.ctx == ctx,
            !r.busy,
            r.answered == 0,
            r.lines@.len() == 0,
    {
        Session { ctx, waiting: Vec::new(), busy: false, answered: 0, lines: Ghost(Seq::empty()) }
    }

    /// Takes what was read from the socket up to a line feed. If no request
    /// is in work, the line is worked on at once; if one is, the line waits.
    pub fn on_line(&mut self, raw: &[u8]) -> (r: Option<Work>)
        requires
            old(self).wf(),
            old(self).answered + old(self).waiting@.len() + 1 < u64::MAX,
        ensures
            final(self).wf(),
            final(self).ctx == old(self).ctx,
            final(self).answered == old(self).answered,
            final(self).lines@ == old(self).lines@.push(command_line(raw@)),
            final(self).busy,
            r is Some <==> !old(self).busy,
            r matches Some(w) ==> w.number == old(self).answered && final(self).work_for(
                old(self).answered as int,
                w,
            ),
    {
        let line = line_of(raw);
        proof {
            self.lines = Ghost(self.lines@.push(line@));
        }
        if self.busy {
            let ghost before = views(self.waiting@);
            self.waiting.push(line);
            assert(views(self.waiting@) =~= before.push(command_line(raw@)));
            assert(views(self.waiting@) =~= self.lines@.skip(self.answered + 1));
            None
        } else {
            let action = process(&self.ctx, line.as_slice());
            self.busy = true;
            assert(views(self.waiting@) =~= self.lines@.skip(self.answered + 1));
            Some(Work { number: self.answered, action })
        }
    }

    /// Takes the reply to the request in work. Gives the line to write, and
    /// the work for the oldest line that waits, if one does. The reply is
    /// that for the line whose number is the number of replies written
    /// before, so that replies are written in the order of the lines.
    pub fn on_done(&mut self, reply: &[u8]) -> (r: (Vec<u8>, Option<Work>))
        requires
            old(self).wf(),
            old(self).busy,
        ensures
            final(self).wf(),
            final(self).ctx == old(self).ctx,
            final(self).lines@ == old(self).lines@,
            final(self).answered == old(self).answered + 1,
            r.0@ == reply@.push(0x0au8),
            r.1 is Some <==> old(self).answered + 1 < old(self).lines@.len(),
            r.1 is Some <==> final(self).busy,
            r.1 matches Some(w) ==> w.number == final(self).answered && final(self).work_for(
                final(self).answered as int,
                w,
            ),
    {
        let mut out = clone_bytes(reply);
        out.push(0x0a);
        self.answered = self.answered + 1;
        if self.waiting.len() > 0 {
            let ghost before = views(self.waiting@);
            let line = self.waiting.remove(0);
            assert(line@ == before[0]);
            assert(views(self.waiting@) =~= before.skip(1));
            assert(before[0] == self.lines@[self.answered as int]);
            assert(views(self.waiting@) =~= self.lines@.skip(self.answered + 1));
            let action = process(&self.ctx, line.as_slice());
            (out, Some(Work { number: self.answered, action }))
        } else {
            self.busy = false;
            (out, None)
        }
    }
}

/// Replies come in the order of their requests. In a session, the request
/// in work is always that of the oldest line that has no reply yet: its
/// number is the number of replies written so far, every line with a lower
/// number has its reply, and every line that waits has a higher number. So
/// the reply that is written next is that for the line of that number, and
/// no reply is written before the replies to the lines before it.
pub proof fn law_replies_keep_order(s: Session)
    requires
        s.wf(),
    ensures
        s.answered <= s.lines@.len(),
        s.busy ==> s.answered < s.lines@.len(),
        forall|k: int|
            0 <= k < s.waiting@.len() ==> #[trigger] s.waiting@[k]@ == s.lines@[s.answered + 1
                + k],
        !s.busy ==> s.answered == s.lines@.len(),
{
    if s.busy {
        assert forall|k: int| 0 <= k < s.waiting@.len() implies #[trigger] s.waiting@[k]@
            == s.lines@[s.answered + 1 + k] by {
            assert(views(s.waiting@)[k] == s.waiting@[k]@);
            assert(s.lines@.skip(s.answered + 1)[k] == s.lines@[s.answered + 1 + k]);
        }
    }
}

} // verus!
