//! The lines that the daemon writes to its clients, and how a server's JSON
//! reply is reshaped into one.

use vstd::prelude::*;
use crate::json::Json;
use crate::text::{
    clone_bytes, contains_byte, decimal, has_byte, join, join_bytes, lit, push_all, push_decimal,
    push_signed, signed_decimal, views,
};

verus! {

/// A reply line that reports a failure: the code, a space, the message.
pub open spec fn error_line(code: int, message: Seq<u8>) -> Seq<u8> {
    signed_decimal(code) + seq![0x20u8] + message
}

/// Builds the line for a failure.
pub fn error(code: i64, message: &[u8]) -> (r: Vec<u8>)
    ensures
        r@ == error_line(code as int, message@),
{
    let mut r: Vec<u8> = Vec::new();
    push_signed(&mut r, code);
    r.push(0x20);
    push_all(&mut r, message);
    r
}

/// A user record as a server reports it.
#[derive(Debug, PartialEq, Eq)]
pub struct Passwd {
    pub username: Vec<u8>,
    pub passwd: Vec<u8>,
    pub uid: u32,
    pub gid: u32,
    pub gecos: Vec<u8>,
    pub dir: Vec<u8>,
    pub shell: Vec<u8>,
}

/// A group record as a server reports it.
#[derive(Debug, PartialEq, Eq)]
pub struct Group {
    pub name: Vec<u8>,
    pub passwd: Vec<u8>,
    pub gid: u32,
    pub mem: Vec<Vec<u8>>,
}

/// The groups of a user as a server reports them.
#[derive(Debug, PartialEq, Eq)]
pub struct Gidlist {
    pub username: Vec<u8>,
    pub gidlist: Vec<u32>,
}

/// The reply to a login that was accepted: it carries nothing.
#[derive(Debug, PartialEq, Eq)]
pub struct Auth {}

/// The error that a server reports.
#[derive(Debug, PartialEq, Eq)]
pub struct ResponseError {
    pub code: i64,
    pub message: Vec<u8>,
    pub data: Option<Vec<u8>>,
}

/// The results that a server can report.
#[derive(Debug, PartialEq, Eq)]
pub enum ResponseVariants {
    Passwd(Passwd),
    Group(Group),
    Gidlist(Gidlist),
    Auth(Auth),
}

/// A server's reply: a result or an error.
#[derive(Debug, PartialEq, Eq)]
pub enum Response {
    Success { result: ResponseVariants },
    Error { error: ResponseError },
}

/// The decimal forms of a list of numbers.
pub open spec fn decimals(l: Seq<u32>) -> Seq<Seq<u8>> {
    l.map_values(|g: u32| decimal(g as nat))
}

/// The line for a user: `200`, a space, and the seven fields with colons between.
pub open spec fn passwd_line(
    username: Seq<u8>,
    passwd: Seq<u8>,
    uid: u32,
    gid: u32,
    gecos: Seq<u8>,
    dir: Seq<u8>,
    shell: Seq<u8>,
) -> Seq<u8> {
    lit("200 ") + passwd_payload(username, passwd, uid, gid, gecos, dir, shell)
}

/// The payload of the line for a user: the seven fields with colons between.
pub open spec fn passwd_payload(
    username: Seq<u8>,
    passwd: Seq<u8>,
    uid: u32,
    gid: u32,
    gecos: Seq<u8>,
    dir: Seq<u8>,
    shell: Seq<u8>,
) -> Seq<u8> {
    join(
        seq![username, passwd, decimal(uid as nat), decimal(gid as nat), gecos, dir, shell],
        0x3a,
    )
}

/// The line for a group: `200`, a space, and name, password, gid and the
/// members, the members with commas between.
pub open spec fn group_line(name: Seq<u8>, passwd: Seq<u8>, gid: u32, mem: Seq<Seq<u8>>) -> Seq<
    u8,
> {
    lit("200 ") + group_payload(name, passwd, gid, mem)
}

/// The payload of the line for a group: name, password, gid and the members
/// with colons between, the members with commas between.
pub open spec fn group_payload(name: Seq<u8>, passwd: Seq<u8>, gid: u32, mem: Seq<Seq<u8>>) -> Seq<
    u8,
> {
    join(seq![name, passwd, decimal(gid as nat), join(mem, 0x2c)], 0x3a)
}

/// The line for the groups of a user: `200`, a space, the name, a colon, and
/// the gids with commas between.
pub open spec fn gidlist_line(username: Seq<u8>, gids: Seq<u32>) -> Seq<u8> {
    lit("200 ") + join(seq![username, join(decimals(gids), 0x2c)], 0x3a)
}

fn ok_prefix() -> (r: Vec<u8>)
    ensures
        r@ == lit("200 "),
{
    clone_bytes("200 ".as_bytes())
}

fn number(n: u32) -> (r: Vec<u8>)
    ensures
        r@ == decimal(n as nat),
{
    let mut r: Vec<u8> = Vec::new();
    push_decimal(&mut r, n as u64);
    r
}

impl Passwd {
    /// The reply line for this record.
    pub fn to_line(&self) -> (r: Vec<u8>)
        ensures
            r@ == passwd_line(
                self.username@,
                self.passwd@,
                self.uid,
                self.gid,
                self.gecos@,
                self.dir@,
                self.shell@,
            ),
    {
        let mut parts: Vec<Vec<u8>> = Vec::new();
        parts.push(clone_bytes(self.username.as_slice()));
        parts.push(clone_bytes(self.passwd.as_slice()));
        parts.push(number(self.uid));
        parts.push(number(self.gid));
        parts.push(clone_bytes(self.gecos.as_slice()));
        parts.push(clone_bytes(self.dir.as_slice()));
        parts.push(clone_bytes(self.shell.as_slice()));
        assert(views(parts@) =~= seq![
            self.username@,
            self.passwd@,
            decimal(self.uid as nat),
            decimal(self.gid as nat),
            self.gecos@,
            self.dir@,
            self.shell@,
        ]);
        let mut r = ok_prefix();
        let body = join_bytes(&parts, 0x3a);
        push_all(&mut r, body.as_slice());
        r
    }
}

impl Group {
    /// The reply line for this record.
    pub fn to_line(&self) -> (r: Vec<u8>)
        ensures
            r@ == group_line(self.name@, self.passwd@, self.gid, views(self.mem@)),
    {
        let mut parts: Vec<Vec<u8>> = Vec::new();
        parts.push(clone_bytes(self.name.as_slice()));
        parts.push(clone_bytes(self.passwd.as_slice()));
        parts.push(number(self.gid));
        parts.push(join_bytes(&self.mem, 0x2c));
        assert(views(parts@) =~= seq![
            self.name@,
            self.passwd@,
            decimal(self.gid as nat),
            join(views(self.mem@), 0x2c),
        ]);
        let mut r = ok_prefix();
        let body = join_bytes(&parts, 0x3a);
        push_all(&mut r, body.as_slice());
        r
    }
}

impl Gidlist {
    /// The reply line for this record.
    pub fn to_line(&self) -> (r: Vec<u8>)
        ensures
            r@ == gidlist_line(self.username@, self.gidlist@),
    {
        let mut gids: Vec<Vec<u8>> = Vec::new();
        let mut i: usize = 0;
        while i < self.gidlist.len()
            invariant
                i <= self.gidlist@.len(),
                views(gids@) == decimals(self.gidlist@).take(i as int),
            decreases self.gidlist@.len() - i,
        {
            let n = number(self.gidlist[i]);
            proof {
                assert(views(gids@.push(n)) == views(gids@).push(n@));
                assert(decimals(self.gidlist@).take(i + 1) == decimals(self.gidlist@).take(
                    i as int,
                ).push(decimal(self.gidlist@[i as int] as nat)));
            }
            gids.push(n);
            i += 1;
        }
        proof {
            assert(decimals(self.gidlist@).take(i as int) == decimals(self.gidlist@));
        }
        let mut parts: Vec<Vec<u8>> = Vec::new();
        parts.push(clone_bytes(self.username.as_slice()));
        parts.push(join_bytes(&gids, 0x2c));
        assert(views(parts@) =~= seq![self.username@, join(decimals(self.gidlist@), 0x2c)]);
        let mut r = ok_prefix();
        let body = join_bytes(&parts, 0x3a);
        push_all(&mut r, body.as_slice());
        r
    }
}

impl Auth {
    /// The reply line for an accepted login.
    pub fn to_line(&self) -> (r: Vec<u8>)
        ensures
            r@ == lit("200 OK"),
    {
        clone_bytes("200 OK".as_bytes())
    }
}


/// The string under a name of an object.
pub open spec fn text_field(j: Json, key: Seq<u8>) -> Option<Seq<u8>> {
    match j.field(key) {
        Some(v) => v.text(),
        None => None,
    }
}

/// The unsigned 32-bit integer under a name of an object.
pub open spec fn small_field(j: Json, key: Seq<u8>) -> Option<u32> {
    match j.field(key) {
        Some(v) => v.small(),
        None => None,
    }
}

/// The array of strings under a name of an object.
pub open spec fn texts_field(j: Json, key: Seq<u8>) -> Option<Seq<Seq<u8>>> {
    match j.field(key) {
        Some(v) => v.texts(),
        None => None,
    }
}

/// The array of unsigned 32-bit integers under a name of an object.
pub open spec fn smalls_field(j: Json, key: Seq<u8>) -> Option<Seq<u32>> {
    match j.field(key) {
        Some(v) => v.smalls(),
        None => None,
    }
}

fn has_members(j: &Json, n: usize) -> (r: bool)
    ensures
        r == (j.members() == Some(n as nat)),
{
    match j.len() {
        Some(k) => k == n,
        None => false,
    }
}

fn get_text(j: &Json, key: &str) -> (r: Option<Vec<u8>>)
    ensures
        match text_field(*j, lit(key)) {
            Some(t) => r matches Some(x) && x@ == t,
            None => r is None,
        },
{
    match j.get(key.as_bytes()) {
        Some(v) => v.as_text(),
        None => None,
    }
}

fn get_small(j: &Json, key: &str) -> (r: Option<u32>)
    ensures
        r == small_field(*j, lit(key)),
{
    match j.get(key.as_bytes()) {
        Some(v) => v.as_u32(),
        None => None,
    }
}

/// Whether a value has the shape of a user record: an object of exactly
/// seven members, the strings `username`, `passwd`, `gecos`, `dir`, `shell`
/// and the unsigned numbers `uid` and `gid`.
pub open spec fn passwd_shape(j: Json) -> bool {
    &&& j.members() == Some(7nat)
    &&& text_field(j, lit("username")) is Some
    &&& text_field(j, lit("passwd")) is Some
    &&& small_field(j, lit("uid")) is Some
    &&& small_field(j, lit("gid")) is Some
    &&& text_field(j, lit("gecos")) is Some
    &&& text_field(j, lit("dir")) is Some
    &&& text_field(j, lit("shell")) is Some
}

/// Whether a value has the shape of a group record: an object of exactly
/// four members, the strings `name` and `passwd`, the unsigned number `gid`
/// and the array of strings `mem`.
pub open spec fn group_shape(j: Json) -> bool {
    &&& j.members() == Some(4nat)
    &&& text_field(j, lit("name")) is Some
    &&& text_field(j, lit("passwd")) is Some
    &&& small_field(j, lit("gid")) is Some
    &&& texts_field(j, lit("mem")) is Some
}

/// Whether a value has the shape of a list of groups: an object of exactly
/// two members, the string `username` and the array of unsigned numbers `gidlist`.
pub open spec fn gidlist_shape(j: Json) -> bool {
    &&& j.members() == Some(2nat)
    &&& text_field(j, lit("username")) is Some
    &&& smalls_field(j, lit("gidlist")) is Some
}

/// Whether a value has the shape of an error: an object with the signed
/// number `code`, the string `message`, and nothing else but, possibly, a
/// string or null `data`.
pub open spec fn error_shape(j: Json) -> bool {
    &&& j.field(lit("code")) matches Some(c) && c.signed() is Some
    &&& text_field(j, lit("message")) is Some
    &&& match j.field(lit("data")) {
        Some(d) => j.members() == Some(3nat) && (d is Null || d is Text),
        None => j.members() == Some(2nat),
    }
}

impl Passwd {
    /// Reads a user record from a JSON value of exactly that shape.
    pub fn from_json(j: &Json) -> (r: Option<Passwd>)
        ensures
            r is Some <==> passwd_shape(*j),
            r matches Some(p) ==> {
                &&& Some(p.username@) == text_field(*j, lit("username"))
                &&& Some(p.passwd@) == text_field(*j, lit("passwd"))
                &&& Some(p.uid) == small_field(*j, lit("uid"))
                &&& Some(p.gid) == small_field(*j, lit("gid"))
                &&& Some(p.gecos@) == text_field(*j, lit("gecos"))
                &&& Some(p.dir@) == text_field(*j, lit("dir"))
                &&& Some(p.shell@) == text_field(*j, lit("shell"))
            },
    {
        if !has_members(j, 7) {
            return None;
        }
        let username = get_text(j, "username");
        let passwd = get_text(j, "passwd");
        let uid = get_small(j, "uid");
        let gid = get_small(j, "gid");
        let gecos = get_text(j, "gecos");
        let dir = get_text(j, "dir");
        let shell = get_text(j, "shell");
        match (username, passwd, uid, gid, gecos, dir, shell) {
            (Some(username), Some(passwd), Some(uid), Some(gid), Some(gecos), Some(dir), Some(shell)) => {
                Some(Passwd { username, passwd, uid, gid, gecos, dir, shell })
            },
            _ => None,
        }
    }

    /// Whether one of the strings of the record holds a NUL byte.
    pub open spec fn has_nul(self) -> bool {
        has_byte(self.username@, 0) || has_byte(self.passwd@, 0) || has_byte(self.gecos@, 0)
            || has_byte(self.dir@, 0) || has_byte(self.shell@, 0)
    }
}

impl Group {
    /// Reads a group record from a JSON value of exactly that shape.
    pub fn from_json(j: &Json) -> (r: Option<Group>)
        ensures
            r is Some <==> group_shape(*j),
            r matches Some(g) ==> {
                &&& Some(g.name@) == text_field(*j, lit("name"))
                &&& Some(g.passwd@) == text_field(*j, lit("passwd"))
                &&& Some(g.gid) == small_field(*j, lit("gid"))
                &&& Some(views(g.mem@)) == texts_field(*j, lit("mem"))
            },
    {
        if !has_members(j, 4) {
            return None;
        }
        let name = get_text(j, "name");
        let passwd = get_text(j, "passwd");
        let gid = get_small(j, "gid");
        let mem = match j.get("mem".as_bytes()) {
            Some(v) => v.as_texts(),
            None => None,
        };
        match (name, passwd, gid, mem) {
            (Some(name), Some(passwd), Some(gid), Some(mem)) => Some(
                Group { name, passwd, gid, mem },
            ),
            _ => None,
        }
    }

    /// Whether one of the strings of the record holds a NUL byte.
    pub open spec fn has_nul(self) -> bool {
        has_byte(self.name@, 0) || has_byte(self.passwd@, 0) || exists|i: int|
            0 <= i < self.mem@.len() && has_byte(#[trigger] self.mem@[i]@, 0)
    }
}

impl Gidlist {
    /// Reads the groups of a user from a JSON value of exactly that shape.
    pub fn from_json(j: &Json) -> (r: Option<Gidlist>)
        ensures
            r is Some <==> gidlist_shape(*j),
            r matches Some(g) ==> {
                &&& Some(g.username@) == text_field(*j, lit("username"))
                &&& Some(g.gidlist@) == smalls_field(*j, lit("gidlist"))
            },
    {
        if !has_members(j, 2) {
            return None;
        }
        let username = get_text(j, "username");
        let gidlist = match j.get("gidlist".as_bytes()) {
            Some(v) => v.as_u32s(),
            None => None,
        };
        match (username, gidlist) {
            (Some(username), Some(gidlist)) => Some(Gidlist { username, gidlist }),
            _ => None,
        }
    }
}

impl ResponseError {
    /// Reads an error from a JSON value of exactly that shape.
    pub fn from_json(j: &Json) -> (r: Option<ResponseError>)
        ensures
            r is Some <==> error_shape(*j),
            r matches Some(e) ==> {
                &&& j.field(lit("code")) matches Some(c) && c.signed() == Some(e.code)
                &&& Some(e.message@) == text_field(*j, lit("message"))
            },
    {
        let code = match j.get("code".as_bytes()) {
            Some(c) => c.as_i64(),
            None => None,
        };
        let message = get_text(j, "message");
        let (count, data) = match j.get("data".as_bytes()) {
            Some(d) => {
                match d {
                    Json::Null => (3usize, None),
                    Json::Text(t) => (3usize, Some(clone_bytes(t.as_slice()))),
                    _ => {
                        return None;
                    },
                }
            },
            None => (2usize, None),
        };
        if !has_members(j, count) {
            return None;
        }
        match (code, message) {
            (Some(code), Some(message)) => Some(ResponseError { code, message, data }),
            _ => None,
        }
    }
}

/// The line that rejects a reply whose shape is none of the known ones.
pub open spec fn mismatch_line() -> Seq<u8> {
    error_line(400, lit("data did not match any variant of untagged enum Response"))
}

/// The line that rejects a reply with a NUL byte in one of its strings.
pub open spec fn nul_line() -> Seq<u8> {
    error_line(500, lit("reply contains a NUL byte"))
}

impl ResponseVariants {
    /// Reads a result from a JSON value that has exactly one of the known shapes.
    pub fn from_json(j: &Json) -> (r: Option<ResponseVariants>)
        ensures
            r is Some <==> (passwd_shape(*j) || group_shape(*j) || gidlist_shape(*j) || j.members()
                == Some(0nat)),
            r matches Some(ResponseVariants::Passwd(p)) ==> passwd_shape(*j)
                && Passwd::from_json.ensures((j,), Some(p)),
            r matches Some(ResponseVariants::Group(g)) ==> group_shape(*j)
                && Group::from_json.ensures((j,), Some(g)),
            r matches Some(ResponseVariants::Gidlist(g)) ==> gidlist_shape(*j)
                && Gidlist::from_json.ensures((j,), Some(g)),
            r matches Some(ResponseVariants::Auth(_)) ==> j.members() == Some(0nat),
    {
        match Passwd::from_json(j) {
            Some(p) => {
                return Some(ResponseVariants::Passwd(p));
            },
            None => {},
        }
        match Group::from_json(j) {
            Some(g) => {
                return Some(ResponseVariants::Group(g));
            },
            None => {},
        }
        match Gidlist::from_json(j) {
            Some(g) => {
                return Some(ResponseVariants::Gidlist(g));
            },
            None => {},
        }
        if has_members(j, 0) {
            return Some(ResponseVariants::Auth(Auth {  }));
        }
        None
    }
}


/// The line for a result of one of the known shapes; a result with a NUL
/// byte in one of its strings is rejected.
pub open spec fn result_line(j: Json) -> Option<Seq<u8>> {
    if passwd_shape(j) {
        let username = text_field(j, lit("username")).unwrap();
        let passwd = text_field(j, lit("passwd")).unwrap();
        let gecos = text_field(j, lit("gecos")).unwrap();
        let dir = text_field(j, lit("dir")).unwrap();
        let shell = text_field(j, lit("shell")).unwrap();
        if has_byte(username, 0) || has_byte(passwd, 0) || has_byte(gecos, 0) || has_byte(dir, 0)
            || has_byte(shell, 0) {
            Some(nul_line())
        } else {
            Some(
                passwd_line(
                    username,
                    passwd,
                    small_field(j, lit("uid")).unwrap(),
                    small_field(j, lit("gid")).unwrap(),
                    gecos,
                    dir,
                    shell,
                ),
            )
        }
    } else if group_shape(j) {
        let name = text_field(j, lit("name")).unwrap();
        let passwd = text_field(j, lit("passwd")).unwrap();
        let mem = texts_field(j, lit("mem")).unwrap();
        if has_byte(name, 0) || has_byte(passwd, 0) || (exists|i: int|
            0 <= i < mem.len() && has_byte(#[trigger] mem[i], 0)) {
            Some(nul_line())
        } else {
            Some(group_line(name, passwd, small_field(j, lit("gid")).unwrap(), mem))
        }
    } else if gidlist_shape(j) {
        let username = text_field(j, lit("username")).unwrap();
        if has_byte(username, 0) {
            Some(nul_line())
        } else {
            Some(gidlist_line(username, smalls_field(j, lit("gidlist")).unwrap()))
        }
    } else if j.members() == Some(0nat) {
        Some(lit("200 OK"))
    } else {
        None
    }
}

/// The line for a server's reply. The reply must be an object with the
/// single member `result`, holding a value of one of the known shapes, or
/// with the single member `error`, holding an error; anything else is
/// rejected with code 400.
pub open spec fn reply_line(j: Json) -> Seq<u8> {
    if j.members() == Some(1nat) && j.field(lit("result")) is Some {
        match result_line(j.field(lit("result")).unwrap()) {
            Some(l) => l,
            None => mismatch_line(),
        }
    } else if j.members() == Some(1nat) && j.field(lit("error")) is Some && error_shape(
        j.field(lit("error")).unwrap(),
    ) {
        let e = j.field(lit("error")).unwrap();
        let message = text_field(e, lit("message")).unwrap();
        if has_byte(message, 0) {
            nul_line()
        } else {
            error_line(e.field(lit("code")).unwrap().signed().unwrap() as int, message)
        }
    } else {
        mismatch_line()
    }
}

fn any_nul(l: &Vec<Vec<u8>>) -> (r: bool)
    ensures
        r == (exists|i: int| 0 <= i < l@.len() && has_byte(#[trigger] views(l@)[i], 0)),
{
    let mut i: usize = 0;
    while i < l.len()
        invariant
            i <= l@.len(),
            forall|k: int| 0 <= k < i ==> !has_byte(#[trigger] views(l@)[k], 0),
        decreases l@.len() - i,
    {
        if contains_byte(l[i].as_slice(), 0) {
            assert(has_byte(views(l@)[i as int], 0));
            return true;
        }
        i += 1;
    }
    false
}

impl Response {
    /// The line that this reply is answered with.
    pub open spec fn line(self) -> Seq<u8> {
        match self {
            Response::Success { result } => match result {
                ResponseVariants::Passwd(p) => if p.has_nul() {
                    nul_line()
                } else {
                    passwd_line(p.username@, p.passwd@, p.uid, p.gid, p.gecos@, p.dir@, p.shell@)
                },
                ResponseVariants::Group(g) => if has_byte(g.name@, 0) || has_byte(g.passwd@, 0) || (
                exists|i: int| 0 <= i < g.mem@.len() && has_byte(#[trigger] views(g.mem@)[i], 0)) {
                    nul_line()
                } else {
                    group_line(g.name@, g.passwd@, g.gid, views(g.mem@))
                },
                ResponseVariants::Gidlist(g) => if has_byte(g.username@, 0) {
                    nul_line()
                } else {
                    gidlist_line(g.username@, g.gidlist@)
                },
                ResponseVariants::Auth(_) => lit("200 OK"),
            },
            Response::Error { error } => if has_byte(error.message@, 0) {
                nul_line()
            } else {
                error_line(error.code as int, error.message@)
            },
        }
    }

    /// Reads a server's reply from a JSON value, by its shape. `None` where
    /// the value has none of the known shapes.
    pub fn from_json(j: &Json) -> (r: Option<Response>)
        ensures
            r matches Some(resp) ==> resp.line() == reply_line(*j),
            r is None ==> reply_line(*j) == mismatch_line(),
    {
        if !has_members(j, 1) {
            return None;
        }
        match j.get("result".as_bytes()) {
            Some(v) => {
                match ResponseVariants::from_json(v) {
                    Some(result) => {
                        proof {
                            match &result {
                                ResponseVariants::Group(g) => {
                                    assert(views(g.mem@) == texts_field(*v, lit("mem")).unwrap());
                                },
                                _ => {},
                            }
                        }
                        Some(Response::Success { result })
                    },
                    None => None,
                }
            },
            None => {
                match j.get("error".as_bytes()) {
                    Some(v) => {
                        match ResponseError::from_json(v) {
                            Some(error) => Some(Response::Error { error }),
                            None => None,
                        }
                    },
                    None => None,
                }
            },
        }
    }

    /// Renders the reply as a line for the client. A reply with a NUL byte
    /// in one of its strings is rejected with code 500.
    pub fn to_line(&self) -> (r: Vec<u8>)
        ensures
            r@ == self.line(),
    {
        match self {
            Response::Success { result } => match result {
                ResponseVariants::Passwd(p) => {
                    if contains_byte(p.username.as_slice(), 0) || contains_byte(
                        p.passwd.as_slice(),
                        0,
                    ) || contains_byte(p.gecos.as_slice(), 0) || contains_byte(p.dir.as_slice(), 0)
                        || contains_byte(p.shell.as_slice(), 0) {
                        error(500, "reply contains a NUL byte".as_bytes())
                    } else {
                        p.to_line()
                    }
                },
                ResponseVariants::Group(g) => {
                    if contains_byte(g.name.as_slice(), 0) || contains_byte(g.passwd.as_slice(), 0)
                        || any_nul(&g.mem) {
                        error(500, "reply contains a NUL byte".as_bytes())
                    } else {
                        g.to_line()
                    }
                },
                ResponseVariants::Gidlist(g) => {
                    if contains_byte(g.username.as_slice(), 0) {
                        error(500, "reply contains a NUL byte".as_bytes())
                    } else {
                        g.to_line()
                    }
                },
                ResponseVariants::Auth(a) => a.to_line(),
            },
            Response::Error { error: e } => {
                if contains_byte(e.message.as_slice(), 0) {
                    error(500, "reply contains a NUL byte".as_bytes())
                } else {
                    error(e.code, e.message.as_slice())
                }
            },
        }
    }

    /// Reshapes a server's reply into the line for the client. `parsed` is
    /// the reply's body read as JSON, or the description of why it could
    /// not be read, which is answered with code 400.
    pub fn transform(parsed: &Result<Json, Vec<u8>>) -> (r: Vec<u8>)
        ensures
            r@ == (match *parsed {
                Ok(j) => reply_line(j),
                Err(d) => error_line(400, d@),
            }),
    {
        match parsed {
            Err(d) => error(400, d.as_slice()),
            Ok(j) => {
                match Response::from_json(j) {
                    Some(resp) => resp.to_line(),
                    None => error(
                        400,
                        "data did not match any variant of untagged enum Response".as_bytes(),
                    ),
                }
            },
        }
    }
}


impl Response {
    /// The JSON value of an error reply: an object with the member `error`,
    /// which holds the code and the message.
    pub fn json_error(code: i64, message: &[u8]) -> (r: Json)
        ensures
            r.members() == Some(1nat),
            r.field(lit("error")) matches Some(e) && error_shape(e) && e.field(lit("code"))
                == Some(Json::Int(code as i128)) && text_field(e, lit("message")) == Some(message@),
            !has_byte(message@, 0) ==> reply_line(r) == error_line(code as int, message@),
    {
        let mut e: Vec<(Vec<u8>, Json)> = Vec::new();
        e.push((clone_bytes("code".as_bytes()), Json::Int(code as i128)));
        e.push((clone_bytes("message".as_bytes()), Json::Text(clone_bytes(message))));
        let mut o: Vec<(Vec<u8>, Json)> = Vec::new();
        proof {
            reveal_strlit("code");
            reveal_strlit("message");
            reveal_strlit("data");
            reveal_strlit("error");
            reveal_strlit("result");
            broadcast use vstd::string::group_string_axioms;
            assert("code"@.len() == 4 && vstd::string::is_ascii("code"));
            assert("message"@.len() == 7 && vstd::string::is_ascii("message"));
            assert("data"@.len() == 4 && vstd::string::is_ascii("data"));
            assert("error"@.len() == 5 && vstd::string::is_ascii("error"));
            assert("result"@.len() == 6 && vstd::string::is_ascii("result"));
            assert(lit("code").len() == 4 && lit("code")[0] == 0x63);
            assert(lit("message").len() == 7);
            assert(lit("data").len() == 4 && lit("data")[0] == 0x64);
            assert(lit("error").len() == 5);
            assert(lit("result").len() == 6);
            let k = crate::text::keys_of(e@);
            assert(k =~= seq![lit("code"), lit("message")]);
            crate::text::lemma_position(k, lit("code"));
            crate::text::lemma_position(k, lit("message"));
            crate::text::lemma_position(k, lit("data"));
            assert(crate::text::position(k, lit("code")) == 0);
            assert(crate::text::position(k, lit("message")) == 1);
            assert(crate::text::position(k, lit("data")) == 2);
        }
        let inner = Json::Object(e);
        o.push((clone_bytes("error".as_bytes()), inner));
        proof {
            let k = crate::text::keys_of(o@);
            assert(k =~= seq![lit("error")]);
            crate::text::lemma_position(k, lit("error"));
            crate::text::lemma_position(k, lit("result"));
            assert(crate::text::position(k, lit("error")) == 0);
            assert(crate::text::position(k, lit("result")) == 1);
        }
        Json::Object(o)
    }
}

} // verus!
