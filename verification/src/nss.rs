//! The entry points of the name-service adapter, I/O aside: what each lookup
//! makes of the daemon's answer, the fallback from a lookup by uid to a
//! lookup by name, and the filling of the caller's array of gids.

use vstd::prelude::*;
use crate::buffer::{Group, Passwd};
use crate::errors::NssError;
use crate::nss_client::{
    decode_gidlist, decode_group, decode_passwd, gidlist_meaning, group_decoded, passwd_decoded,
};
use crate::text::clone_bytes;

verus! {

/// The last user that a lookup by name has found on this thread.
#[derive(Debug, PartialEq, Eq)]
pub struct LastUid {
    pub uid: u32,
    pub username: Vec<u8>,
}

/// The adapter's state on one thread.
#[derive(Debug, PartialEq, Eq)]
pub struct Webnis {
    pub last_uid: Option<LastUid>,
}

/// What a lookup by uid does after the daemon has answered it.
#[derive(Debug, PartialEq, Eq)]
pub enum UidLookup {
    /// The lookup is over, with this outcome.
    Done(Result<(), NssError>),
    /// The record is to be emptied and looked up by this name instead.
    ByName(Vec<u8>),
}

impl Webnis {
    /// The state of a thread that has looked nothing up yet.
    pub fn new() -> (r: Webnis)
        ensures
            r.last_uid is None,
    {
        Webnis { last_uid: None }
    }

    /// Finishes a lookup by name: lays the record out from the daemon's
    /// answer and, if that went well, remembers the name and the uid it has.
    pub fn getpwnam(
        &mut self,
        pwd: &mut Passwd,
        name: &[u8],
        reply: Result<Vec<u8>, NssError>,
    ) -> (r: Result<(), NssError>)
        requires
            old(pwd).buffer.wf(),
        ensures
            final(pwd).buffer.wf(),
            match reply {
                Err(e) => r == Err::<(), NssError>(e) && *final(pwd) == *old(pwd),
                Ok(payload) => passwd_decoded(*old(pwd), *final(pwd), payload@, r),
            },
            r is Ok ==> (final(self).last_uid matches Some(l) && l.uid == final(pwd).uid
                && l.username@ == name@),
            r is Err ==> final(self).last_uid == old(self).last_uid,
    {
        match reply {
            Err(e) => Err(e),
            Ok(payload) => {
                let res = decode_passwd(pwd, payload.as_slice());
                if res.is_ok() {
                    self.last_uid = Some(LastUid { uid: pwd.uid, username: clone_bytes(name) });
                }
                res
            },
        }
    }

    /// Continues a lookup by uid after the daemon has answered it. If the
    /// answer gave a record, the lookup is over. If not, and the last lookup
    /// by name found this very uid, the lookup goes on by that name; any
    /// other failure is the outcome.
    pub fn getpwuid(&self, pwd: &mut Passwd, uid: u32, reply: Result<Vec<u8>, NssError>) -> (r:
        UidLookup)
        requires
            old(pwd).buffer.wf(),
        ensures
            final(pwd).buffer.wf(),
            final(pwd).buffer.buflen == old(pwd).buffer.buflen,
            match reply {
                Err(e) => *final(pwd) == *old(pwd) && continues(r, self.last_uid, uid, Err(e)),
                Ok(payload) => exists|res: Result<(), NssError>|
                    #[trigger] passwd_decoded(*old(pwd), *final(pwd), payload@, res) && continues(
                        r,
                        self.last_uid,
                        uid,
                        res,
                    ),
            },
    {
        let direct = match reply {
            Err(e) => Err(e),
            Ok(payload) => decode_passwd(pwd, payload.as_slice()),
        };
        match direct {
            Ok(_) => UidLookup::Done(Ok(())),
            Err(e) => {
                match &self.last_uid {
                    Some(l) => {
                        if l.uid == uid {
                            let name = clone_bytes(l.username.as_slice());
                            UidLookup::ByName(name)
                        } else {
                            UidLookup::Done(Err(e))
                        }
                    },
                    None => UidLookup::Done(Err(e)),
                }
            },
        }
    }

    /// Finishes a lookup of a group: lays the record out from the daemon's answer.
    pub fn getgrnam(&self, grp: &mut Group, reply: Result<Vec<u8>, NssError>) -> (r: Result<
        (),
        NssError,
    >)
        requires
            old(grp).buffer.wf(),
        ensures
            final(grp).buffer.wf(),
            match reply {
                Err(e) => r == Err::<(), NssError>(e) && *final(grp) == *old(grp),
                Ok(payload) => group_decoded(*old(grp), *final(grp), payload@, r),
            },
    {
        match reply {
            Err(e) => Err(e),
            Ok(payload) => decode_group(grp, payload.as_slice()),
        }
    }

    /// Finishes a lookup of a group by gid: lays the record out from the daemon's answer.
    pub fn getgrgid(&self, grp: &mut Group, reply: Result<Vec<u8>, NssError>) -> (r: Result<
        (),
        NssError,
    >)
        requires
            old(grp).buffer.wf(),
        ensures
            final(grp).buffer.wf(),
            match reply {
                Err(e) => r == Err::<(), NssError>(e) && *final(grp) == *old(grp),
                Ok(payload) => group_decoded(*old(grp), *final(grp), payload@, r),
            },
    {
        match reply {
            Err(e) => Err(e),
            Ok(payload) => decode_group(grp, payload.as_slice()),
        }
    }

    /// Finishes a lookup of the groups of a user: reads the gids from the daemon's answer.
    pub fn getgidlist(&self, reply: Result<Vec<u8>, NssError>) -> (r: Result<Vec<u32>, NssError>)
        ensures
            match reply {
                Err(e) => r == Err::<Vec<u32>, NssError>(e),
                Ok(payload) => match gidlist_meaning(payload@) {
                    Some(g) => r matches Ok(v) && v@ == g,
                    None => r == Err::<Vec<u32>, NssError>(NssError::Unavailable),
                },
            },
    {
        match reply {
            Err(e) => Err(e),
            Ok(payload) => decode_gidlist(payload.as_slice()),
        }
    }
}

/// The name that a failed lookup by uid falls back to: the remembered
/// name, if the remembered uid is the one asked for.
pub open spec fn fallback_name(last: Option<LastUid>, uid: u32) -> Option<Seq<u8>> {
    match last {
        Some(l) => if l.uid == uid {
            Some(l.username@)
        } else {
            None
        },
        None => None,
    }
}

/// Whether `next` is what a lookup by uid does once its direct lookup has
/// ended with `direct`: a record ends the lookup; a failure goes on by the
/// remembered name if there is one for this uid, and is the outcome otherwise.
pub open spec fn continues(
    next: UidLookup,
    last: Option<LastUid>,
    uid: u32,
    direct: Result<(), NssError>,
) -> bool {
    match direct {
        Ok(_) => next == UidLookup::Done(Ok(())),
        Err(e) => match fallback_name(last, uid) {
            Some(n) => next matches UidLookup::ByName(v) && v@ == n,
            None => next == UidLookup::Done(Err(e)),
        },
    }
}

/// After a lookup by name has succeeded, a lookup by the uid it returned
/// does not end with the failure of its direct lookup: it goes on as a
/// lookup by that name.
pub proof fn law_uid_lookup_falls_back(
    state: Webnis,
    name: Seq<u8>,
    uid: u32,
    failure: NssError,
    next: UidLookup,
)
    requires
        state.last_uid matches Some(l) && l.uid == uid && l.username@ == name,
        continues(next, state.last_uid, uid, Err(failure)),
    ensures
        next matches UidLookup::ByName(v) && v@ == name,
{
}


/// The entries of `gids` other than `skip`, in order.
pub open spec fn without(gids: Seq<u32>, skip: u32) -> Seq<u32>
    decreases gids.len(),
{
    if gids.len() == 0 {
        Seq::empty()
    } else if gids.last() == skip {
        without(gids.drop_last(), skip)
    } else {
        without(gids.drop_last(), skip).push(gids.last())
    }
}

/// How many of `n` gids are added to an array that is filled up to `start`
/// and may hold `limit` entries at most; a limit of 0 is no limit.
pub open spec fn taken(n: int, start: int, limit: int) -> int {
    if limit == 0 {
        n
    } else if start >= limit {
        0
    } else if n <= limit - start {
        n
    } else {
        limit - start
    }
}

fn filter_gids(user_gids: &Vec<u32>, skipgid: u32) -> (r: Vec<u32>)
    ensures
        r@ == without(user_gids@, skipgid),
        r@.len() <= user_gids@.len(),
{
    let mut r: Vec<u32> = Vec::new();
    let mut i: usize = 0;
    proof {
        assert(user_gids@.take(0) == Seq::<u32>::empty());
    }
    while i < user_gids.len()
        invariant
            i <= user_gids@.len(),
            r@ == without(user_gids@.take(i as int), skipgid),
            r@.len() <= i,
        decreases user_gids@.len() - i,
    {
        proof {
            assert(user_gids@.take(i + 1).drop_last() == user_gids@.take(i as int));
            assert(user_gids@.take(i + 1).last() == user_gids@[i as int]);
        }
        if user_gids[i] != skipgid {
            r.push(user_gids[i]);
        }
        i += 1;
    }
    proof {
        assert(user_gids@.take(i as int) == user_gids@);
    }
    r
}

/// Adds the groups of a user to the caller's array of gids. `array` is the
/// array as it is, `start` the number of entries in use, `limit` the
/// greatest size the array may have, 0 for no limit. The gids other than
/// `skipgid` are written behind the entries in use, in order, as many as
/// the limit leaves room for; the array grows as far as that takes and no
/// further. Returns the number of entries in use afterwards.
pub fn initgroups(
    array: &mut Vec<u32>,
    start: usize,
    limit: usize,
    user_gids: &Vec<u32>,
    skipgid: u32,
) -> (r: usize)
    requires
        start <= old(array)@.len(),
        old(array)@.len() + user_gids@.len() <= usize::MAX,
    ensures
        ({
            let w = without(user_gids@, skipgid);
            let k = taken(w.len() as int, start as int, limit as int);
            &&& r == start + k
            &&& final(array)@.len() == (if old(array)@.len() >= start + k {
                old(array)@.len() as int
            } else {
                start + k
            })
            &&& final(array)@.subrange(start as int, start + k) == w.take(k)
            &&& forall|i: int|
                0 <= i < old(array)@.len() && !(start <= i < start + k) ==> final(array)@[i] == old(
                    array,
                )@[i]
        }),
{
    let w = filter_gids(user_gids, skipgid);
    let k: usize = if limit == 0 {
        w.len()
    } else if start >= limit {
        0
    } else if w.len() <= limit - start {
        w.len()
    } else {
        limit - start
    };
    let mut i: usize = 0;
    while i < k
        invariant
            i <= k <= w@.len(),
            start <= old(array)@.len(),
            old(array)@.len() + w@.len() <= usize::MAX,
            array@.len() == (if old(array)@.len() >= start + i {
                old(array)@.len() as int
            } else {
                start + i
            }),
            forall|j: int| 0 <= j < i ==> array@[start + j] == w@[j],
            forall|j: int|
                0 <= j < old(array)@.len() && !(start <= j < start + i) ==> array@[j] == old(
                    array,
                )@[j],
        decreases k - i,
    {
        if start + i < array.len() {
            array.set(start + i, w[i]);
        } else {
            array.push(w[i]);
        }
        i += 1;
    }
    assert(array@.subrange(start as int, start + k) =~= w@.take(k as int));
    start + k
}

} // verus!
