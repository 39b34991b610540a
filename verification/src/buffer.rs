//! Laying a record out in a buffer of the caller's choosing, as the host's
//! name-service interface asks for: the strings of the record one after the
//! other, each closed by a NUL byte, and for a group an aligned array with
//! one slot per member and a closing empty slot. Positions are offsets from
//! the start of the buffer.

use vstd::prelude::*;
use crate::errors::NssError;
use crate::text::views;

verus! {

/// Least size of a buffer.
pub const MIN_BUFLEN: usize = 24;

/// Size and alignment of a slot of the member array.
pub const SLOT: usize = 8;

/// The image of the caller's buffer while a record is laid out in it. The
/// first eight bytes stay zero: offset 0 reads as the empty string and as an
/// empty member array.
#[derive(Debug, PartialEq, Eq)]
pub struct Buffer {
    pub data: Vec<u8>,
    pub buflen: usize,
    pub bufpos: usize,
    pub res: Result<(), NssError>,
}

impl Buffer {
    /// The image has the size of the buffer, the write position lies within
    /// it behind the first eight bytes, and everything from the write
    /// position on is still zero, as are the first eight bytes.
    pub open spec fn wf(&self) -> bool {
        &&& self.data@.len() == self.buflen
        &&& self.buflen >= MIN_BUFLEN
        &&& SLOT <= self.bufpos <= self.buflen
        &&& forall|i: int| self.bufpos <= i < self.buflen ==> self.data@[i] == 0
        &&& forall|i: int| 0 <= i < SLOT ==> self.data@[i] == 0
    }

    /// Whether the member array of `n` members stands at offset `mem`: a
    /// multiple of eight, with a slot of eight bytes for each member and
    /// one more, all of them within the buffer and zero. The caller writes
    /// the addresses of the members into the first `n` slots; the last one
    /// stays zero and ends the array.
    pub open spec fn has_array(&self, mem: int, n: int) -> bool {
        &&& 0 <= mem
        &&& mem % 8 == 0
        &&& mem + 8 * (n + 1) <= self.data@.len()
        &&& forall|i: int| mem <= i < mem + 8 * (n + 1) ==> self.data@[i] == 0
    }

    /// Whether `item`, closed by a NUL byte, stands at offset `at`.
    pub open spec fn holds(&self, at: int, item: Seq<u8>) -> bool {
        &&& 0 <= at
        &&& at + item.len() < self.data@.len()
        &&& self.data@.subrange(at, at + item.len()) == item
        &&& self.data@[at + item.len()] == 0
    }

    /// A zeroed buffer of `buflen` bytes; refused if that is less than 24.
    pub fn new(buflen: usize) -> (r: Result<Buffer, NssError>)
        ensures
            buflen < MIN_BUFLEN <==> r is Err,
            r matches Err(e) ==> e == NssError::InsufficientBuffer,
            r matches Ok(b) ==> b.wf() && b.buflen == buflen && b.bufpos == SLOT && b.res is Ok
                && b.data@ == Seq::new(buflen as nat, |i: int| 0u8),
    {
        if buflen < MIN_BUFLEN {
            return Err(NssError::InsufficientBuffer);
        }
        let data: Vec<u8> = vec![0u8; buflen];
        assert(data@ =~= Seq::new(buflen as nat, |i: int| 0u8));
        Ok(Buffer { data, buflen, bufpos: SLOT, res: Ok(()) })
    }

    /// Zeroes the buffer and forgets an earlier failure.
    pub fn reset(&mut self)
        requires
            old(self).wf(),
        ensures
            final(self).wf(),
            final(self).buflen == old(self).buflen,
            final(self).bufpos == SLOT,
            final(self).res is Ok,
            final(self).data@ == Seq::new(old(self).buflen as nat, |i: int| 0u8),
    {
        let mut i: usize = 0;
        while i < self.buflen
            invariant
                i <= self.buflen,
                self.buflen == old(self).buflen,
                self.data@.len() == self.buflen,
                forall|k: int| 0 <= k < i ==> self.data@[k] == 0,
            decreases self.buflen - i,
        {
            self.data.set(i, 0);
            i += 1;
        }
        self.bufpos = SLOT;
        self.res = Ok(());
        assert(self.data@ =~= Seq::new(old(self).buflen as nat, |i: int| 0u8));
    }

    /// Adds a string and its closing NUL byte at the write position, and
    /// returns the offset it stands at. A string that does not fit leaves
    /// the buffer as it is and makes this and every later addition fail with
    /// `InsufficientBuffer`.
    pub fn add_string(&mut self, item: &[u8]) -> (r: Result<usize, NssError>)
        requires
            old(self).wf(),
        ensures
            final(self).wf(),
            final(self).buflen == old(self).buflen,
            r is Ok <==> old(self).res is Ok
                && old(self).bufpos + item@.len() + 1 <= old(self).buflen,
            r matches Ok(at) ==> {
                &&& at == old(self).bufpos
                &&& final(self).bufpos == old(self).bufpos + item@.len() + 1
                &&& final(self).res is Ok
                &&& final(self).holds(at as int, item@)
                &&& forall|i: int|
                    0 <= i < old(self).bufpos ==> final(self).data@[i] == old(self).data@[i]
            },
            r matches Err(e) ==> {
                &&& final(self).res == Err::<(), NssError>(e)
                &&& final(self).data@ == old(self).data@
                &&& final(self).bufpos == old(self).bufpos
                &&& e == (match old(self).res {
                    Err(x) => x,
                    Ok(_) => NssError::InsufficientBuffer,
                })
            },
    {
        match self.res {
            Err(e) => {
                return Err(e);
            },
            Ok(_) => {},
        }
        if item.len() >= self.buflen - self.bufpos {
            self.res = Err(NssError::InsufficientBuffer);
            return Err(NssError::InsufficientBuffer);
        }
        let at = self.bufpos;
        let mut i: usize = 0;
        while i < item.len()
            invariant
                i <= item@.len(),
                at == old(self).bufpos,
                at + item@.len() < self.buflen,
                self.buflen == old(self).buflen,
                self.bufpos == old(self).bufpos,
                self.res == old(self).res,
                self.data@.len() == self.buflen,
                forall|k: int| 0 <= k < at ==> self.data@[k] == old(self).data@[k],
                forall|k: int| 0 <= k < i ==> self.data@[at + k] == item@[k],
                forall|k: int| at + i <= k < self.buflen ==> self.data@[k] == 0,
            decreases item@.len() - i,
        {
            self.data.set(at + i, item[i]);
            i += 1;
        }
        self.bufpos = at + item.len() + 1;
        assert(self.data@.subrange(at as int, at + item@.len()) =~= item@);
        Ok(at)
    }

    /// The state of the buffer: an error if an addition has failed.
    pub fn result(&self) -> (r: Result<(), NssError>)
        ensures
            r == self.res,
    {
        self.res
    }
}


/// The bytes that a list of strings takes, each with its closing NUL byte.
pub open spec fn strings_size(items: Seq<Seq<u8>>) -> nat
    decreases items.len(),
{
    if items.len() == 0 {
        0
    } else {
        strings_size(items.drop_last()) + items.last().len() + 1
    }
}

/// The strings before a position take no more than all of them.
pub proof fn lemma_strings_size_prefix(items: Seq<Seq<u8>>, k: int)
    requires
        0 <= k <= items.len(),
    ensures
        strings_size(items.take(k)) <= strings_size(items),
    decreases items.len() - k,
{
    if k == items.len() {
        assert(items.take(k) == items);
    } else {
        lemma_strings_size_prefix(items.drop_last(), k);
        assert(items.drop_last().take(k) == items.take(k));
    }
}

/// The least multiple of eight that is not below `pos`.
pub open spec fn align_up(pos: int) -> int {
    8 * ((pos + 7) / 8)
}

impl Buffer {
    /// Adds the member array of a group and, behind it, the members. The
    /// array starts at the next multiple of eight and has one slot of eight
    /// bytes for each member and one more that stays empty. Returns the
    /// offset of the array and the offsets of the members, in order. If
    /// array and members do not fit, this and every later addition fail
    /// with `InsufficientBuffer`.
    pub fn add_members(&mut self, members: &Vec<Vec<u8>>) -> (r: Result<
        (usize, Vec<usize>),
        NssError,
    >)
        requires
            old(self).wf(),
        ensures
            final(self).wf(),
            final(self).buflen == old(self).buflen,
            r is Ok <==> old(self).res is Ok && align_up(old(self).bufpos as int) + 8 * (
            members@.len() + 1) + strings_size(views(members@)) <= old(self).buflen,
            r matches Ok((array, at)) ==> {
                &&& array == align_up(old(self).bufpos as int)
                &&& at@.len() == members@.len()
                &&& final(self).bufpos == array + 8 * (members@.len() + 1) + strings_size(
                    views(members@),
                )
                &&& final(self).res is Ok
                &&& forall|i: int|
                    0 <= i < members@.len() ==> final(self).holds(
                        #[trigger] at@[i] as int,
                        members@[i]@,
                    ) && at@[i] >= array + 8 * (members@.len() + 1)
                &&& forall|i: int|
                    0 <= i < old(self).bufpos ==> final(self).data@[i] == old(self).data@[i]
                &&& forall|i: int|
                    array <= i < array + 8 * (members@.len() + 1) ==> final(self).data@[i] == 0
                &&& final(self).has_array(array as int, members@.len() as int)
            },
            r matches Err(e) ==> final(self).res == Err::<(), NssError>(e)
                && e == (match old(self).res {
                Err(x) => x,
                Ok(_) => NssError::InsufficientBuffer,
            }),
    {
        match self.res {
            Err(e) => {
                return Err(e);
            },
            Ok(_) => {},
        }
        let amt = members.len();
        let apos: u128 = 8 * ((self.bufpos as u128 + 7) / 8);
        let sz: u128 = (amt as u128 + 1) * 8;
        if apos + sz > self.buflen as u128 {
            self.res = Err(NssError::InsufficientBuffer);
            return Err(NssError::InsufficientBuffer);
        }
        let array: usize = apos as usize;
        let first: usize = (apos + sz) as usize;
        self.bufpos = first;
        let ghost items = views(members@);
        let mut at: Vec<usize> = Vec::new();
        let mut idx: usize = 0;
        proof {
            assert(items.take(0) == Seq::<Seq<u8>>::empty());
        }
        while idx < members.len()
            invariant
                idx <= members@.len(),
                items == views(members@),
                old(self).wf(),
                old(self).res is Ok,
                self.wf(),
                self.res is Ok,
                self.buflen == old(self).buflen,
                array == align_up(old(self).bufpos as int),
                array >= old(self).bufpos,
                first == array + 8 * (members@.len() + 1),
                self.bufpos == first + strings_size(items.take(idx as int)),
                at@.len() == idx,
                forall|i: int|
                    0 <= i < idx ==> self.holds(#[trigger] at@[i] as int, members@[i]@) && at@[i]
                        >= first && at@[i] + members@[i]@.len() < self.bufpos,
                forall|i: int| 0 <= i < old(self).bufpos ==> self.data@[i] == old(self).data@[i],
                forall|i: int| array <= i < first ==> self.data@[i] == 0,
            decreases members@.len() - idx,
        {
            let ghost before = *self;
            proof {
                assert(items.take(idx + 1).drop_last() == items.take(idx as int));
                assert(items.take(idx + 1).last() == members@[idx as int]@);
                lemma_strings_size_prefix(items, idx + 1);
            }
            match self.add_string(members[idx].as_slice()) {
                Ok(p) => {
                    proof {
                        assert forall|i: int| 0 <= i < idx implies self.holds(
                            #[trigger] at@[i] as int,
                            members@[i]@,
                        ) by {
                            assert(before.holds(at@[i] as int, members@[i]@));
                            assert(self.data@.subrange(
                                at@[i] as int,
                                at@[i] + members@[i]@.len(),
                            ) =~= before.data@.subrange(
                                at@[i] as int,
                                at@[i] + members@[i]@.len(),
                            ));
                        }
                    }
                    at.push(p);
                },
                Err(e) => {
                    return Err(e);
                },
            }
            idx += 1;
        }
        proof {
            assert(items.take(idx as int) == items);
        }
        Ok((array, at))
    }
}


impl Buffer {
    /// Whether `next` is this buffer after the addition of `item`: the
    /// string stands at the old write position if the buffer was sound and
    /// the string fits; otherwise nothing but the state changes.
    pub open spec fn added(self, next: Buffer, item: Seq<u8>) -> bool {
        &&& next.wf()
        &&& next.buflen == self.buflen
        &&& if self.res is Ok && self.bufpos + item.len() + 1 <= self.buflen {
            &&& next.res is Ok
            &&& next.bufpos == self.bufpos + item.len() + 1
            &&& next.holds(self.bufpos as int, item)
            &&& forall|i: int| 0 <= i < self.bufpos ==> next.data@[i] == self.data@[i]
        } else {
            &&& next.res is Err
            &&& next.res == Err::<(), NssError>(
                match self.res {
                    Err(x) => x,
                    Ok(_) => NssError::InsufficientBuffer,
                },
            )
            &&& next.bufpos == self.bufpos
            &&& next.data@ == self.data@
        }
    }
}

/// A user record in the making: the buffer, the offsets of its strings, and
/// its numbers. Offset 0 reads as the empty string.
#[derive(Debug, PartialEq, Eq)]
pub struct Passwd {
    pub buffer: Buffer,
    pub name: usize,
    pub passwd: usize,
    pub uid: u32,
    pub gid: u32,
    pub gecos: usize,
    pub dir: usize,
    pub shell: usize,
}

/// A group record in the making: the buffer, the offsets of its strings, its
/// gid, the offset of the member array and the offsets of the members.
/// Offset 0 reads as the empty string and as an empty member array.
#[derive(Debug, PartialEq, Eq)]
pub struct Group {
    pub buffer: Buffer,
    pub name: usize,
    pub passwd: usize,
    pub gid: u32,
    pub mem: usize,
    pub members: Vec<usize>,
}

impl Passwd {
    /// Whether the record is empty: every string is the empty string at
    /// offset 0, the numbers are 0, and the buffer is zeroed and sound.
    pub open spec fn cleared(self) -> bool {
        &&& self.name == 0 && self.passwd == 0 && self.gecos == 0 && self.dir == 0 && self.shell
            == 0
        &&& self.uid == 0 && self.gid == 0
        &&& self.buffer.bufpos == SLOT
        &&& self.buffer.res is Ok
        &&& self.buffer.data@ == Seq::new(self.buffer.buflen as nat, |i: int| 0u8)
    }

    /// An empty record over a zeroed buffer of `buflen` bytes.
    pub fn new(buflen: usize) -> (r: Result<Passwd, NssError>)
        ensures
            buflen < MIN_BUFLEN <==> r is Err,
            r matches Err(e) ==> e == NssError::InsufficientBuffer,
            r matches Ok(p) ==> p.buffer.wf() && p.buffer.buflen == buflen && p.cleared(),
    {
        match Buffer::new(buflen) {
            Ok(buffer) => Ok(
                Passwd { buffer, name: 0, passwd: 0, uid: 0, gid: 0, gecos: 0, dir: 0, shell: 0 },
            ),
            Err(e) => Err(e),
        }
    }

    /// Empties the record and its buffer.
    pub fn reset(&mut self)
        requires
            old(self).buffer.wf(),
        ensures
            final(self).buffer.wf(),
            final(self).buffer.buflen == old(self).buffer.buflen,
            final(self).buffer.bufpos == SLOT,
            final(self).buffer.res is Ok,
            final(self).cleared(),
    {
        self.buffer.reset();
        self.name = 0;
        self.passwd = 0;
        self.uid = 0;
        self.gid = 0;
        self.gecos = 0;
        self.dir = 0;
        self.shell = 0;
    }

    /// Sets the user name, if it fits.
    pub fn set_name(&mut self, name: &[u8])
        requires
            old(self).buffer.wf(),
        ensures
            old(self).buffer.added(final(self).buffer, name@),
            final(self).name == (if final(self).buffer.res is Ok {
                old(self).buffer.bufpos
            } else {
                old(self).name
            }),
            final(self).passwd == old(self).passwd && final(self).uid == old(self).uid
                && final(self).gid == old(self).gid && final(self).gecos == old(self).gecos
                && final(self).dir
                == old(self).dir && final(self).shell == old(self).shell,
    {
        match self.buffer.add_string(name) {
            Ok(at) => {
                self.name = at;
            },
            Err(_) => {},
        }
    }

    /// Sets the password field, if it fits.
    pub fn set_passwd(&mut self, pass: &[u8])
        requires
            old(self).buffer.wf(),
        ensures
            old(self).buffer.added(final(self).buffer, pass@),
            final(self).passwd == (if final(self).buffer.res is Ok {
                old(self).buffer.bufpos
            } else {
                old(self).passwd
            }),
            final(self).name == old(self).name && final(self).uid == old(self).uid
                && final(self).gid == old(self).gid && final(self).gecos == old(self).gecos
                && final(self).dir
                == old(self).dir && final(self).shell == old(self).shell,
    {
        match self.buffer.add_string(pass) {
            Ok(at) => {
                self.passwd = at;
            },
            Err(_) => {},
        }
    }

    /// Sets the uid.
    pub fn set_uid(&mut self, uid: u32)
        ensures
            *final(self) == (Passwd { uid: uid, ..*old(self) }),
    {
        self.uid = uid;
    }

    /// Sets the gid.
    pub fn set_gid(&mut self, gid: u32)
        ensures
            *final(self) == (Passwd { gid: gid, ..*old(self) }),
    {
        self.gid = gid;
    }

    /// Sets the descriptive field, if it fits.
    pub fn set_gecos(&mut self, gecos: &[u8])
        requires
            old(self).buffer.wf(),
        ensures
            old(self).buffer.added(final(self).buffer, gecos@),
            final(self).gecos == (if final(self).buffer.res is Ok {
                old(self).buffer.bufpos
            } else {
                old(self).gecos
            }),
            final(self).name == old(self).name && final(self).uid == old(self).uid
                && final(self).gid == old(self).gid && final(self).passwd == old(self).passwd
                && final(self).dir
                == old(self).dir && final(self).shell == old(self).shell,
    {
        match self.buffer.add_string(gecos) {
            Ok(at) => {
                self.gecos = at;
            },
            Err(_) => {},
        }
    }

    /// Sets the home directory, if it fits.
    pub fn set_home(&mut self, dir: &[u8])
        requires
            old(self).buffer.wf(),
        ensures
            old(self).buffer.added(final(self).buffer, dir@),
            final(self).dir == (if final(self).buffer.res is Ok {
                old(self).buffer.bufpos
            } else {
                old(self).dir
            }),
            final(self).name == old(self).name && final(self).uid == old(self).uid
                && final(self).gid == old(self).gid && final(self).passwd == old(self).passwd
                && final(self).gecos
                == old(self).gecos && final(self).shell == old(self).shell,
    {
        match self.buffer.add_string(dir) {
            Ok(at) => {
                self.dir = at;
            },
            Err(_) => {},
        }
    }

    /// Sets the shell, if it fits.
    pub fn set_shell(&mut self, shell: &[u8])
        requires
            old(self).buffer.wf(),
        ensures
            old(self).buffer.added(final(self).buffer, shell@),
            final(self).shell == (if final(self).buffer.res is Ok {
                old(self).buffer.bufpos
            } else {
                old(self).shell
            }),
            final(self).name == old(self).name && final(self).uid == old(self).uid
                && final(self).gid == old(self).gid && final(self).passwd == old(self).passwd
                && final(self).gecos
                == old(self).gecos && final(self).dir == old(self).dir,
    {
        match self.buffer.add_string(shell) {
            Ok(at) => {
                self.shell = at;
            },
            Err(_) => {},
        }
    }

    /// Whether everything that was set did fit.
    pub fn result(&self) -> (r: Result<(), NssError>)
        ensures
            r == self.buffer.res,
    {
        self.buffer.result()
    }
}

impl Group {
    /// Whether the record is empty: name and password are the empty string
    /// at offset 0, the gid is 0, there are no members, and the buffer is
    /// zeroed and sound.
    pub open spec fn cleared(self) -> bool {
        &&& self.name == 0 && self.passwd == 0 && self.mem == 0 && self.members@.len() == 0
        &&& self.gid == 0
        &&& self.buffer.bufpos == SLOT
        &&& self.buffer.res is Ok
        &&& self.buffer.data@ == Seq::new(self.buffer.buflen as nat, |i: int| 0u8)
    }

    /// An empty record over a zeroed buffer of `buflen` bytes.
    pub fn new(buflen: usize) -> (r: Result<Group, NssError>)
        ensures
            buflen < MIN_BUFLEN <==> r is Err,
            r matches Err(e) ==> e == NssError::InsufficientBuffer,
            r matches Ok(g) ==> g.buffer.wf() && g.buffer.buflen == buflen && g.cleared(),
    {
        match Buffer::new(buflen) {
            Ok(buffer) => Ok(
                Group { buffer, name: 0, passwd: 0, gid: 0, mem: 0, members: Vec::new() },
            ),
            Err(e) => Err(e),
        }
    }

    /// Empties the record and its buffer.
    pub fn reset(&mut self)
        requires
            old(self).buffer.wf(),
        ensures
            final(self).buffer.wf(),
            final(self).buffer.buflen == old(self).buffer.buflen,
            final(self).buffer.bufpos == SLOT,
            final(self).buffer.res is Ok,
            final(self).cleared(),
    {
        self.buffer.reset();
        self.name = 0;
        self.passwd = 0;
        self.gid = 0;
        self.mem = 0;
        self.members = Vec::new();
    }

    /// Sets the group name, if it fits.
    pub fn set_name(&mut self, name: &[u8])
        requires
            old(self).buffer.wf(),
        ensures
            old(self).buffer.added(final(self).buffer, name@),
            final(self).name == (if final(self).buffer.res is Ok {
                old(self).buffer.bufpos
            } else {
                old(self).name
            }),
            final(self).passwd == old(self).passwd && final(self).gid == old(self).gid
                && final(self).mem == old(self).mem && final(self).members == old(self).members,
    {
        match self.buffer.add_string(name) {
            Ok(at) => {
                self.name = at;
            },
            Err(_) => {},
        }
    }

    /// Sets the password field, if it fits.
    pub fn set_passwd(&mut self, pass: &[u8])
        requires
            old(self).buffer.wf(),
        ensures
            old(self).buffer.added(final(self).buffer, pass@),
            final(self).passwd == (if final(self).buffer.res is Ok {
                old(self).buffer.bufpos
            } else {
                old(self).passwd
            }),
            final(self).name == old(self).name && final(self).gid == old(self).gid
                && final(self).mem == old(self).mem && final(self).members == old(self).members,
    {
        match self.buffer.add_string(pass) {
            Ok(at) => {
                self.passwd = at;
            },
            Err(_) => {},
        }
    }

    /// Sets the gid.
    pub fn set_gid(&mut self, gid: u32)
        ensures
            *final(self) == (Group { gid: gid, ..*old(self) }),
    {
        self.gid = gid;
    }

    /// Sets the members, if the array and the names fit: the array of the
    /// members' slots and the closing empty slot stands at the next multiple
    /// of eight, and the members stand behind it.
    pub fn set_members(&mut self, members: &Vec<Vec<u8>>)
        requires
            old(self).buffer.wf(),
        ensures
            final(self).buffer.wf(),
            final(self).buffer.buflen == old(self).buffer.buflen,
            final(self).name == old(self).name && final(self).passwd == old(self).passwd
                && final(self).gid == old(self).gid,
            final(self).buffer.res is Ok <==> old(self).buffer.res is Ok && align_up(
                old(self).buffer.bufpos as int,
            ) + 8 * (members@.len() + 1) + strings_size(views(members@)) <= old(self).buffer.buflen,
            final(self).buffer.res is Ok ==> {
                &&& final(self).mem == align_up(old(self).buffer.bufpos as int)
                &&& final(self).members@.len() == members@.len()
                &&& forall|i: int|
                    0 <= i < members@.len() ==> final(self).buffer.holds(
                        #[trigger] final(self).members@[i] as int,
                        members@[i]@,
                    ) && final(self).members@[i] >= final(self).mem + 8 * (members@.len() + 1)
                &&& final(self).buffer.has_array(final(self).mem as int, members@.len() as int)
                &&& final(self).buffer.bufpos == final(self).mem + 8 * (members@.len() + 1)
                    + strings_size(views(members@))
                &&& forall|i: int|
                    0 <= i < old(self).buffer.bufpos ==> final(self).buffer.data@[i]
                        == old(self).buffer.data@[i]
            },
            final(self).buffer.res matches Err(e) ==> e == (match old(self).buffer.res {
                Err(x) => x,
                Ok(_) => NssError::InsufficientBuffer,
            }) && final(self).mem == old(self).mem && final(self).members == old(self).members,
    {
        match self.buffer.add_members(members) {
            Ok((array, at)) => {
                self.mem = array;
                self.members = at;
            },
            Err(_) => {},
        }
    }

    /// Whether everything that was set did fit.
    pub fn result(&self) -> (r: Result<(), NssError>)
        ensures
            r == self.buffer.res,
    {
        self.buffer.result()
    }
}

} // verus!
