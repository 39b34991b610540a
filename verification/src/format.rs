//! Record formats: how a line of a keyed hash file becomes an entry.

use vstd::prelude::*;
use vstd::string::StringSliceAdditionalSpecFns;
use vstd::utf8::valid_utf8;
use crate::errors::WnError;
use crate::json::Json;
use crate::nss_client::{group_payload_ok, passwd_payload_ok};
use crate::percent::str_from_utf8;
use crate::routematcher::{groups_view, regex_captured, regex_captures};
use crate::response::{
    group_payload, group_shape, passwd_payload, passwd_shape, small_field, text_field, texts_field,
};
use crate::text::{
    bytes_eq, clone_bytes, contains_byte, decimal, find_key, has_byte, join, keys_of,
    lemma_decimal_bytes, lemma_join_bytes, lemma_join_split, lemma_parse_decimal, lemma_position,
    lemma_split_bytes_from, lemma_split_fields_clean, lemma_split_join, lit, opt_pairs_view,
    opt_view, pairs_view, parse_i64, parse_number, parse_signed, parse_u32, parse_unsigned,
    position, push_signed, signed_decimal, split, split_bytes, split_words, splitn, splitn_bytes,
    views, words,
};

verus! {

/// The format of the lines that a keyed hash file holds.
#[derive(PartialEq, Eq, Structural, Clone, Copy, Debug)]
pub enum Format {
    Passwd,
    Group,
    Adjunct,
    KeyValue,
    ColSep,
    WsSep,
    TabSep,
    Line,
    Json,
}

impl Format {
    /// The format that a configuration names.
    pub open spec fn named(s: Seq<u8>) -> Option<Format> {
        if s == lit("passwd") {
            Some(Format::Passwd)
        } else if s == lit("group") {
            Some(Format::Group)
        } else if s == lit("adjunct") {
            Some(Format::Adjunct)
        } else if s == lit("key-value") {
            Some(Format::KeyValue)
        } else if s == lit("colon-separated") {
            Some(Format::ColSep)
        } else if s == lit("whitespace-separated") {
            Some(Format::WsSep)
        } else if s == lit("tab-separated") {
            Some(Format::TabSep)
        } else if s == lit("line") {
            Some(Format::Line)
        } else if s == lit("json") {
            Some(Format::Json)
        } else {
            None
        }
    }

    /// Reads a format name.
    pub fn from_str(s: &[u8]) -> (r: Result<Format, WnError>)
        ensures
            r == (match Format::named(s@) {
                Some(f) => Ok::<Format, WnError>(f),
                None => Err(WnError::UnknownFormat),
            }),
    {
        if bytes_eq(s, "passwd".as_bytes()) {
            Ok(Format::Passwd)
        } else if bytes_eq(s, "group".as_bytes()) {
            Ok(Format::Group)
        } else if bytes_eq(s, "adjunct".as_bytes()) {
            Ok(Format::Adjunct)
        } else if bytes_eq(s, "key-value".as_bytes()) {
            Ok(Format::KeyValue)
        } else if bytes_eq(s, "colon-separated".as_bytes()) {
            Ok(Format::ColSep)
        } else if bytes_eq(s, "whitespace-separated".as_bytes()) {
            Ok(Format::WsSep)
        } else if bytes_eq(s, "tab-separated".as_bytes()) {
            Ok(Format::TabSep)
        } else if bytes_eq(s, "line".as_bytes()) {
            Ok(Format::Line)
        } else if bytes_eq(s, "json".as_bytes()) {
            Ok(Format::Json)
        } else {
            Err(WnError::UnknownFormat)
        }
    }

    /// The name of the variant, as diagnostics print it.
    pub open spec fn debug_name(self) -> Seq<u8> {
        match self {
            Format::Passwd => lit("Passwd"),
            Format::Group => lit("Group"),
            Format::Adjunct => lit("Adjunct"),
            Format::KeyValue => lit("KeyValue"),
            Format::ColSep => lit("ColSep"),
            Format::WsSep => lit("WsSep"),
            Format::TabSep => lit("TabSep"),
            Format::Line => lit("Line"),
            Format::Json => lit("Json"),
        }
    }

    /// Writes the name of the variant.
    pub fn debug_bytes(&self) -> (r: &'static [u8])
        ensures
            r@ == self.debug_name(),
    {
        match self {
            Format::Passwd => "Passwd".as_bytes(),
            Format::Group => "Group".as_bytes(),
            Format::Adjunct => "Adjunct".as_bytes(),
            Format::KeyValue => "KeyValue".as_bytes(),
            Format::ColSep => "ColSep".as_bytes(),
            Format::WsSep => "WsSep".as_bytes(),
            Format::TabSep => "TabSep".as_bytes(),
            Format::Line => "Line".as_bytes(),
            Format::Json => "Json".as_bytes(),
        }
    }
}


/// Whether a line can be a record at all: it holds no NUL byte and no line feed.
pub open spec fn clean_line(line: Seq<u8>) -> bool {
    !has_byte(line, 0) && !has_byte(line, 0x0a)
}

fn is_clean(line: &[u8]) -> (r: bool)
    ensures
        r == clean_line(line@),
{
    !contains_byte(line, 0) && !contains_byte(line, 0x0a)
}

/// A user record.
#[derive(Debug, PartialEq, Eq)]
pub struct Passwd {
    pub username: Vec<u8>,
    pub passwd: Vec<u8>,
    pub uid: u32,
    pub gid: u32,
    pub gecos: Vec<u8>,
    pub dir: Vec<u8>,
    pub shell: Vec<u8>,
}

/// A record of the shadow map: a user and the hash of the password.
#[derive(Debug, PartialEq, Eq)]
pub struct Adjunct {
    pub name: Vec<u8>,
    pub passwd: Vec<u8>,
}

/// A group record.
#[derive(Debug, PartialEq, Eq)]
pub struct Group {
    pub name: Vec<u8>,
    pub passwd: Vec<u8>,
    pub gid: u32,
    pub mem: Vec<Vec<u8>>,
}

/// A number or a piece of text.
#[derive(Debug, PartialEq, Eq)]
pub enum NumOrText {
    Number(i64),
    Text(Vec<u8>),
}

/// Whether a line is a user record: clean, seven fields between colons, the
/// third and the fourth unsigned 32-bit numbers.
pub open spec fn passwd_record(line: Seq<u8>) -> bool {
    let f = split(line, 0x3a);
    &&& clean_line(line)
    &&& f.len() == 7
    &&& parse_unsigned(f[2], 0xffff_ffff) is Some
    &&& parse_unsigned(f[3], 0xffff_ffff) is Some
}

/// Whether a line is a group record: clean, four fields between colons, the
/// third an unsigned 32-bit number.
pub open spec fn group_record(line: Seq<u8>) -> bool {
    let f = split(line, 0x3a);
    &&& clean_line(line)
    &&& f.len() == 4
    &&& parse_unsigned(f[2], 0xffff_ffff) is Some
}

fn member(key: &str, value: Json) -> (r: (Vec<u8>, Json))
    ensures
        r.0@ == lit(key),
        r.1 == value,
{
    (clone_bytes(key.as_bytes()), value)
}

impl Passwd {
    /// Reads a user record from a line.
    pub fn from_line(line: &[u8]) -> (r: Result<Passwd, WnError>)
        ensures
            r is Ok <==> passwd_record(line@),
            r matches Err(e) ==> e == WnError::DeserializeData,
            r matches Ok(p) ==> {
                let f = split(line@, 0x3a);
                &&& p.username@ == f[0]
                &&& p.passwd@ == f[1]
                &&& Some(p.uid as nat) == parse_unsigned(f[2], 0xffff_ffff)
                &&& Some(p.gid as nat) == parse_unsigned(f[3], 0xffff_ffff)
                &&& p.gecos@ == f[4]
                &&& p.dir@ == f[5]
                &&& p.shell@ == f[6]
            },
    {
        if !is_clean(line) {
            return Err(WnError::DeserializeData);
        }
        let fields = split_bytes(line, 0x3a);
        if fields.len() != 7 {
            return Err(WnError::DeserializeData);
        }
        let uid = match parse_u32(fields[2].as_slice()) {
            Some(n) => n,
            None => {
                return Err(WnError::DeserializeData);
            },
        };
        let gid = match parse_u32(fields[3].as_slice()) {
            Some(n) => n,
            None => {
                return Err(WnError::DeserializeData);
            },
        };
        proof {
            let f = views(fields@);
            assert(f[0] == fields@[0]@ && f[1] == fields@[1]@ && f[4] == fields@[4]@ && f[5]
                == fields@[5]@ && f[6] == fields@[6]@);
        }
        Ok(
            Passwd {
                username: clone_bytes(fields[0].as_slice()),
                passwd: clone_bytes(fields[1].as_slice()),
                uid,
                gid,
                gecos: clone_bytes(fields[4].as_slice()),
                dir: clone_bytes(fields[5].as_slice()),
                shell: clone_bytes(fields[6].as_slice()),
            },
        )
    }

    /// The entry for this record: an object with the members `username`,
    /// `passwd`, `uid`, `gid`, `gecos`, `dir` and `shell`, in this order.
    pub fn to_json(&self) -> (r: Json)
        ensures
            passwd_shape(r),
            text_field(r, lit("username")) == Some(self.username@),
            text_field(r, lit("passwd")) == Some(self.passwd@),
            small_field(r, lit("uid")) == Some(self.uid),
            small_field(r, lit("gid")) == Some(self.gid),
            text_field(r, lit("gecos")) == Some(self.gecos@),
            text_field(r, lit("dir")) == Some(self.dir@),
            text_field(r, lit("shell")) == Some(self.shell@),
    {
        let mut o: Vec<(Vec<u8>, Json)> = Vec::new();
        o.push(member("username", Json::Text(clone_bytes(self.username.as_slice()))));
        o.push(member("passwd", Json::Text(clone_bytes(self.passwd.as_slice()))));
        o.push(member("uid", Json::Int(self.uid as i128)));
        o.push(member("gid", Json::Int(self.gid as i128)));
        o.push(member("gecos", Json::Text(clone_bytes(self.gecos.as_slice()))));
        o.push(member("dir", Json::Text(clone_bytes(self.dir.as_slice()))));
        o.push(member("shell", Json::Text(clone_bytes(self.shell.as_slice()))));
        proof {
            lemma_names_differ();
            let k = keys_of(o@);
            assert(k =~= seq![
                lit("username"),
                lit("passwd"),
                lit("uid"),
                lit("gid"),
                lit("gecos"),
                lit("dir"),
                lit("shell"),
            ]);
            lemma_position(k, lit("username"));
            lemma_position(k, lit("passwd"));
            lemma_position(k, lit("uid"));
            lemma_position(k, lit("gid"));
            lemma_position(k, lit("gecos"));
            lemma_position(k, lit("dir"));
            lemma_position(k, lit("shell"));
            assert(position(k, lit("username")) == 0);
            assert(position(k, lit("passwd")) == 1);
            assert(position(k, lit("uid")) == 2);
            assert(position(k, lit("gid")) == 3);
            assert(position(k, lit("gecos")) == 4);
            assert(position(k, lit("dir")) == 5);
            assert(position(k, lit("shell")) == 6);
        }
        Json::Object(o)
    }
}

/// The member names of the records are all different.
pub proof fn lemma_names_differ()
    ensures
        lit("username").len() == 8,
        lit("passwd").len() == 6,
        lit("uid").len() == 3,
        lit("gid").len() == 3,
        lit("gecos").len() == 5,
        lit("dir").len() == 3,
        lit("shell").len() == 5,
        lit("name").len() == 4,
        lit("mem").len() == 3,
        lit("uid")[0] == 0x75,
        lit("gid")[0] == 0x67,
        lit("dir")[0] == 0x64,
        lit("mem")[0] == 0x6d,
        lit("gecos")[0] == 0x67,
        lit("shell")[0] == 0x73,
{
    reveal_strlit("username");
    reveal_strlit("passwd");
    reveal_strlit("uid");
    reveal_strlit("gid");
    reveal_strlit("gecos");
    reveal_strlit("dir");
    reveal_strlit("shell");
    reveal_strlit("name");
    reveal_strlit("mem");
    broadcast use vstd::string::group_string_axioms;
    assert("username"@.len() == 8 && vstd::string::is_ascii("username"));
    assert("passwd"@.len() == 6 && vstd::string::is_ascii("passwd"));
    assert("uid"@.len() == 3 && vstd::string::is_ascii("uid"));
    assert("gid"@.len() == 3 && vstd::string::is_ascii("gid"));
    assert("gecos"@.len() == 5 && vstd::string::is_ascii("gecos"));
    assert("dir"@.len() == 3 && vstd::string::is_ascii("dir"));
    assert("shell"@.len() == 5 && vstd::string::is_ascii("shell"));
    assert("name"@.len() == 4 && vstd::string::is_ascii("name"));
    assert("mem"@.len() == 3 && vstd::string::is_ascii("mem"));
}


impl Group {
    /// Reads a group record from a line. The members are the parts of the
    /// fourth field between commas.
    pub fn from_line(line: &[u8]) -> (r: Result<Group, WnError>)
        ensures
            r is Ok <==> group_record(line@),
            r matches Err(e) ==> e == WnError::DeserializeData,
            r matches Ok(g) ==> {
                let f = split(line@, 0x3a);
                &&& g.name@ == f[0]
                &&& g.passwd@ == f[1]
                &&& Some(g.gid as nat) == parse_unsigned(f[2], 0xffff_ffff)
                &&& views(g.mem@) == split(f[3], 0x2c)
            },
    {
        if !is_clean(line) {
            return Err(WnError::DeserializeData);
        }
        let fields = split_bytes(line, 0x3a);
        if fields.len() != 4 {
            return Err(WnError::DeserializeData);
        }
        let gid = match parse_u32(fields[2].as_slice()) {
            Some(n) => n,
            None => {
                return Err(WnError::DeserializeData);
            },
        };
        proof {
            let f = views(fields@);
            assert(f[0] == fields@[0]@ && f[1] == fields@[1]@ && f[3] == fields@[3]@);
        }
        Ok(
            Group {
                name: clone_bytes(fields[0].as_slice()),
                passwd: clone_bytes(fields[1].as_slice()),
                gid,
                mem: split_bytes(fields[3].as_slice(), 0x2c),
            },
        )
    }

    /// The entry for this record: an object with the members `name`,
    /// `passwd`, `gid` and `mem`, in this order.
    pub fn to_json(&self) -> (r: Json)
        ensures
            group_shape(r),
            text_field(r, lit("name")) == Some(self.name@),
            text_field(r, lit("passwd")) == Some(self.passwd@),
            small_field(r, lit("gid")) == Some(self.gid),
            texts_field(r, lit("mem")) == Some(views(self.mem@)),
    {
        let mut mem: Vec<Json> = Vec::new();
        let mut i: usize = 0;
        while i < self.mem.len()
            invariant
                i <= self.mem@.len(),
                mem@.len() == i,
                forall|k: int| 0 <= k < i ==> (#[trigger] mem@[k]).text() == Some(self.mem@[k]@),
            decreases self.mem@.len() - i,
        {
            mem.push(Json::Text(clone_bytes(self.mem[i].as_slice())));
            i += 1;
        }
        let list = Json::List(mem);
        assert(list.texts() is Some);
        assert(list.texts().unwrap() =~= views(self.mem@));
        let mut o: Vec<(Vec<u8>, Json)> = Vec::new();
        o.push(member("name", Json::Text(clone_bytes(self.name.as_slice()))));
        o.push(member("passwd", Json::Text(clone_bytes(self.passwd.as_slice()))));
        o.push(member("gid", Json::Int(self.gid as i128)));
        o.push(member("mem", list));
        proof {
            lemma_names_differ();
            let k = keys_of(o@);
            assert(k =~= seq![lit("name"), lit("passwd"), lit("gid"), lit("mem")]);
            lemma_position(k, lit("name"));
            lemma_position(k, lit("passwd"));
            lemma_position(k, lit("gid"));
            lemma_position(k, lit("mem"));
            assert(position(k, lit("name")) == 0);
            assert(position(k, lit("passwd")) == 1);
            assert(position(k, lit("gid")) == 2);
            assert(position(k, lit("mem")) == 3);
        }
        Json::Object(o)
    }
}

impl Adjunct {
    /// Reads a record of the shadow map from a line: at least two fields
    /// between colons, of which the first two are kept.
    pub fn from_line(line: &[u8]) -> (r: Result<Adjunct, WnError>)
        ensures
            r is Ok <==> split(line@, 0x3a).len() >= 2,
            r matches Err(e) ==> e == WnError::DeserializeData,
            r matches Ok(a) ==> a.name@ == split(line@, 0x3a)[0] && a.passwd@ == split(
                line@,
                0x3a,
            )[1],
    {
        let fields = split_bytes(line, 0x3a);
        if fields.len() < 2 {
            return Err(WnError::DeserializeData);
        }
        proof {
            let f = views(fields@);
            assert(f[0] == fields@[0]@ && f[1] == fields@[1]@);
        }
        Ok(
            Adjunct {
                name: clone_bytes(fields[0].as_slice()),
                passwd: clone_bytes(fields[1].as_slice()),
            },
        )
    }

    /// The entry for this record: an object with the members `name` and `passwd`.
    pub fn to_json(&self) -> (r: Json)
        ensures
            r.members() == Some(2nat),
            text_field(r, lit("name")) == Some(self.name@),
            text_field(r, lit("passwd")) == Some(self.passwd@),
    {
        let mut o: Vec<(Vec<u8>, Json)> = Vec::new();
        o.push(member("name", Json::Text(clone_bytes(self.name.as_slice()))));
        o.push(member("passwd", Json::Text(clone_bytes(self.passwd.as_slice()))));
        proof {
            lemma_names_differ();
            let k = keys_of(o@);
            assert(k =~= seq![lit("name"), lit("passwd")]);
            lemma_position(k, lit("name"));
            lemma_position(k, lit("passwd"));
            assert(position(k, lit("name")) == 0);
            assert(position(k, lit("passwd")) == 1);
        }
        Json::Object(o)
    }
}

/// What a number or a piece of text holds.
pub enum Scalar {
    Number(i64),
    Text(Seq<u8>),
}

/// A value read from text: a number if the text is a signed 64-bit decimal
/// number, the text itself otherwise.
pub open spec fn scalar_of(s: Seq<u8>) -> Scalar {
    match parse_signed(s) {
        Some(n) => Scalar::Number(n as i64),
        None => Scalar::Text(s),
    }
}

impl NumOrText {
    /// The value with its text as a byte sequence.
    pub open spec fn model(self) -> Scalar {
        match self {
            NumOrText::Number(n) => Scalar::Number(n),
            NumOrText::Text(t) => Scalar::Text(t@),
        }
    }

    /// Reads a value: a number where the text is one.
    pub fn parse(val: &[u8]) -> (r: NumOrText)
        ensures
            r.model() == scalar_of(val@),
    {
        match parse_i64(val) {
            Some(v) => NumOrText::Number(v),
            None => NumOrText::Text(clone_bytes(val)),
        }
    }

    /// A copy of the value.
    pub fn copy(&self) -> (r: NumOrText)
        ensures
            r.model() == self.model(),
    {
        match self {
            NumOrText::Number(n) => NumOrText::Number(*n),
            NumOrText::Text(t) => NumOrText::Text(clone_bytes(t.as_slice())),
        }
    }

    /// The JSON value for this value.
    pub fn to_json(&self) -> (r: Json)
        ensures
            match self.model() {
                Scalar::Number(n) => r == Json::Int(n as i128),
                Scalar::Text(t) => r.text() == Some(t),
            },
    {
        match self {
            NumOrText::Number(n) => Json::Int(*n as i128),
            NumOrText::Text(t) => Json::Text(clone_bytes(t.as_slice())),
        }
    }
}


/// The payload that the daemon writes for a user record read from `line`.
pub open spec fn passwd_rendered(line: Seq<u8>) -> Seq<u8> {
    let f = split(line, 0x3a);
    passwd_payload(
        f[0],
        f[1],
        parse_unsigned(f[2], 0xffff_ffff).unwrap() as u32,
        parse_unsigned(f[3], 0xffff_ffff).unwrap() as u32,
        f[4],
        f[5],
        f[6],
    )
}

/// The payload that the daemon writes for a group record read from `line`.
pub open spec fn group_rendered(line: Seq<u8>) -> Seq<u8> {
    let f = split(line, 0x3a);
    group_payload(
        f[0],
        f[1],
        parse_unsigned(f[2], 0xffff_ffff).unwrap() as u32,
        split(f[3], 0x2c),
    )
}

/// A user record that has gone from line to entry to line goes through
/// again unchanged: what the daemon writes is a user record, and reading
/// and writing it once more gives the same line. If the user name is not
/// empty, the adapter accepts the line as well.
pub proof fn law_passwd_line_round_trip(line: Seq<u8>)
    requires
        passwd_record(line),
    ensures
        passwd_record(passwd_rendered(line)),
        passwd_rendered(passwd_rendered(line)) == passwd_rendered(line),
        split(line, 0x3a)[0].len() > 0 ==> passwd_payload_ok(passwd_rendered(line)),
{
    let f = split(line, 0x3a);
    let uid = parse_unsigned(f[2], 0xffff_ffff).unwrap();
    let gid = parse_unsigned(f[3], 0xffff_ffff).unwrap();
    let parts = seq![f[0], f[1], decimal(uid), decimal(gid), f[4], f[5], f[6]];
    let out = join(parts, 0x3a);
    assert(out == passwd_rendered(line));
    lemma_split_fields_clean(line, 0x3a);
    lemma_decimal_bytes(uid, 0x3a);
    lemma_decimal_bytes(gid, 0x3a);
    assert forall|k: int| 0 <= k < parts.len() implies !has_byte(#[trigger] parts[k], 0x3a) by {
        if k != 2 && k != 3 {
            assert(parts[k] == f[k]);
        }
    }
    lemma_split_join(parts, 0x3a);
    lemma_parse_decimal(uid, 0xffff_ffff);
    lemma_parse_decimal(gid, 0xffff_ffff);
    assert(clean_line(out)) by {
        lemma_decimal_bytes(uid, 0);
        lemma_decimal_bytes(gid, 0);
        lemma_decimal_bytes(uid, 0x0a);
        lemma_decimal_bytes(gid, 0x0a);
        if has_byte(out, 0) {
            lemma_join_bytes(parts, 0x3a, 0);
            let k = choose|k: int| 0 <= k < parts.len() && has_byte(#[trigger] parts[k], 0);
            assert(k != 2 && k != 3);
            assert(parts[k] == f[k]);
            lemma_split_bytes_from(line, 0x3a, k, 0);
        }
        if has_byte(out, 0x0a) {
            lemma_join_bytes(parts, 0x3a, 0x0a);
            let k = choose|k: int| 0 <= k < parts.len() && has_byte(#[trigger] parts[k], 0x0a);
            assert(k != 2 && k != 3);
            assert(parts[k] == f[k]);
            lemma_split_bytes_from(line, 0x3a, k, 0x0a);
        }
    }
    assert(split(out, 0x3a)[2] == decimal(uid));
    assert(split(out, 0x3a)[3] == decimal(gid));
}

/// A group record that has gone from line to entry to line goes through
/// again unchanged, and the adapter accepts it if the group name is not empty.
pub proof fn law_group_line_round_trip(line: Seq<u8>)
    requires
        group_record(line),
    ensures
        group_record(group_rendered(line)),
        group_rendered(group_rendered(line)) == group_rendered(line),
        split(line, 0x3a)[0].len() > 0 ==> group_payload_ok(group_rendered(line)),
{
    let f = split(line, 0x3a);
    let gid = parse_unsigned(f[2], 0xffff_ffff).unwrap();
    lemma_join_split(f[3], 0x2c);
    let parts = seq![f[0], f[1], decimal(gid), f[3]];
    let out = join(parts, 0x3a);
    assert(out == group_rendered(line));
    lemma_split_fields_clean(line, 0x3a);
    lemma_decimal_bytes(gid, 0x3a);
    assert forall|k: int| 0 <= k < parts.len() implies !has_byte(#[trigger] parts[k], 0x3a) by {
        if k != 2 {
            assert(parts[k] == f[k]);
        }
    }
    lemma_split_join(parts, 0x3a);
    lemma_parse_decimal(gid, 0xffff_ffff);
    assert(clean_line(out)) by {
        lemma_decimal_bytes(gid, 0);
        lemma_decimal_bytes(gid, 0x0a);
        if has_byte(out, 0) {
            lemma_join_bytes(parts, 0x3a, 0);
            let k = choose|k: int| 0 <= k < parts.len() && has_byte(#[trigger] parts[k], 0);
            assert(k != 2);
            assert(parts[k] == f[k]);
            lemma_split_bytes_from(line, 0x3a, k, 0);
        }
        if has_byte(out, 0x0a) {
            lemma_join_bytes(parts, 0x3a, 0x0a);
            let k = choose|k: int| 0 <= k < parts.len() && has_byte(#[trigger] parts[k], 0x0a);
            assert(k != 2);
            assert(parts[k] == f[k]);
            lemma_split_bytes_from(line, 0x3a, k, 0x0a);
        }
    }
    assert(split(out, 0x3a)[2] == decimal(gid));
    assert(split(out, 0x3a)[3] == f[3]);
}


/// The entry of the key-value format: names and their values, each name once.
#[derive(Debug, PartialEq, Eq)]
pub struct KeyValue(pub Vec<(Vec<u8>, NumOrText)>);

/// The separator formats.
#[derive(Debug, PartialEq, Eq)]
pub struct Fields {}

/// What a list of named values holds.
pub open spec fn table_model(t: Seq<(Vec<u8>, NumOrText)>) -> Seq<(Seq<u8>, Scalar)> {
    t.map_values(|p: (Vec<u8>, NumOrText)| (p.0@, p.1.model()))
}

/// The names of a table.
pub open spec fn names(t: Seq<(Seq<u8>, Scalar)>) -> Seq<Seq<u8>> {
    t.map_values(|p: (Seq<u8>, Scalar)| p.0)
}

/// A table after a value was put under a name: in the place of the first
/// entry of that name, or at the end when the name is new.
pub open spec fn put_value(t: Seq<(Seq<u8>, Scalar)>, name: Seq<u8>, value: Scalar) -> Seq<
    (Seq<u8>, Scalar),
> {
    let i = position(names(t), name);
    if 0 <= i < t.len() {
        t.update(i, (name, value))
    } else {
        t.push((name, value))
    }
}

/// The name and the value that a word of the form `name=value` gives. A
/// word without `=` gives an empty value.
pub open spec fn word_pair(word: Seq<u8>) -> (Seq<u8>, Scalar) {
    let p = splitn(word, 0x3d, 2);
    (
        p[0],
        scalar_of(
            if p.len() > 1 {
                p[1]
            } else {
                Seq::empty()
            },
        ),
    )
}

/// The table that the first `n` words of a line give: a later word takes
/// the place of an earlier one of the same name.
pub open spec fn words_table(ws: Seq<Seq<u8>>, n: int) -> Seq<(Seq<u8>, Scalar)>
    decreases n,
{
    if n <= 0 {
        Seq::empty()
    } else {
        let p = word_pair(ws[n - 1]);
        put_value(words_table(ws, n - 1), p.0, p.1)
    }
}

/// The regular expression that a template must match to be a placeholder:
/// `{name}` or `{name:m}`, the name made of letters, digits, `_` and `-`,
/// or of digits alone where a field is named by its number, and `m` a
/// lower-case letter.
pub open spec fn placeholder_pattern(digits_only: bool) -> Seq<u8> {
    if digits_only {
        lit("^\\{([0-9]+)(:[a-z])?\\}$")
    } else {
        lit("^\\{([0-9a-zA-Z_-]+)(:[a-z])?\\}$")
    }
}

/// The text that the first group of an expression has taken, after the
/// whole match.
pub open spec fn first_group(groups: Seq<(Option<Seq<u8>>, Option<Seq<u8>>)>) -> Option<Seq<u8>> {
    if groups.len() > 1 {
        groups[1].1
    } else {
        None
    }
}

/// The name of a placeholder, if the template is one: the template is
/// UTF-8 text, the expression for placeholders matches it, and the name is
/// what the first group has taken.
pub open spec fn placeholder(t: Seq<u8>, digits_only: bool) -> Option<Seq<u8>> {
    if !valid_utf8(t) {
        None
    } else {
        match regex_captured(placeholder_pattern(digits_only), t) {
            Some(g) => first_group(g),
            None => None,
        }
    }
}

/// Picks the name of a placeholder from the groups that the expression for
/// placeholders has taken from a template.
pub fn placeholder_name(groups: &Vec<(Option<Vec<u8>>, Option<Vec<u8>>)>) -> (r: Option<Vec<u8>>)
    ensures
        opt_view(r) == first_group(groups_view(groups@)),
{
    if groups.len() > 1 {
        assert(groups_view(groups@)[1] == (opt_view(groups@[1].0), opt_view(groups@[1].1)));
        crate::text::clone_opt(&groups[1].1)
    } else {
        None
    }
}

/// Reads the name of a placeholder from a template.
pub fn parse_placeholder(t: &[u8], digits_only: bool) -> (r: Option<Vec<u8>>)
    ensures
        opt_view(r) == placeholder(t@, digits_only),
{
    let text = match str_from_utf8(t) {
        Ok(text) => text,
        Err(_) => {
            return None;
        },
    };
    let pattern = if digits_only {
        "^\\{([0-9]+)(:[a-z])?\\}$"
    } else {
        "^\\{([0-9a-zA-Z_-]+)(:[a-z])?\\}$"
    };
    match regex_captures(pattern, text) {
        Some(groups) => placeholder_name(&groups),
        None => None,
    }
}

fn put_entry(t: &mut Vec<(Vec<u8>, NumOrText)>, name: Vec<u8>, value: NumOrText)
    ensures
        table_model(final(t)@) == put_value(table_model(old(t)@), name@, value.model()),
{
    proof {
        assert(names(table_model(t@)) =~= keys_of(t@));
    }
    let i = find_key(t, name.as_slice());
    let ghost before = table_model(t@);
    let ghost e = (name@, value.model());
    if i < t.len() {
        t.set(i, (name, value));
        assert(table_model(t@) =~= before.update(i as int, e));
    } else {
        t.push((name, value));
        assert(table_model(t@) =~= before.push(e));
    }
}

/// The table and the result after the first `n` entries of an output
/// mapping were applied. A template that is a placeholder moves the value
/// of the named field from the table to the result; if the table has no
/// such field, the entry is dropped. Any other template is kept as text.
pub open spec fn key_value_output(
    table: Seq<(Seq<u8>, Scalar)>,
    output: Seq<(Seq<u8>, Seq<u8>)>,
    n: int,
) -> (Seq<(Seq<u8>, Scalar)>, Seq<(Seq<u8>, Scalar)>)
    decreases n,
{
    if n <= 0 {
        (table, Seq::empty())
    } else {
        let (t, res) = key_value_output(table, output, n - 1);
        let (k, v) = output[n - 1];
        match placeholder(v, false) {
            Some(name) => {
                let i = position(names(t), name);
                if 0 <= i < t.len() {
                    (t.remove(i), put_value(res, k, t[i].1))
                } else {
                    (t, res)
                }
            },
            None => (t, put_value(res, k, Scalar::Text(v))),
        }
    }
}

/// The entry that a line of the key-value format gives.
pub open spec fn key_value_entry(line: Seq<u8>, output: Option<Seq<(Seq<u8>, Seq<u8>)>>) -> Seq<
    (Seq<u8>, Scalar),
> {
    let table = words_table(words(line), words(line).len() as int);
    match output {
        None => table,
        Some(o) => key_value_output(table, o, o.len() as int).1,
    }
}

impl KeyValue {
    /// Reads a line of the key-value format: words of the form `name=value`
    /// with white space between. Without an output mapping the entry holds
    /// every name with its value. With one, the entry holds the names of
    /// the mapping, each with the field that its template names or with the
    /// template's text.
    pub fn from_line(line: &[u8], output: &Option<Vec<(Vec<u8>, Vec<u8>)>>) -> (r: Result<
        KeyValue,
        WnError,
    >)
        ensures
            r matches Ok(kv) && table_model(kv.0@) == key_value_entry(
                line@,
                crate::text::opt_pairs_view(*output),
            ),
    {
        let ws = split_words(line);
        let mut hm: Vec<(Vec<u8>, NumOrText)> = Vec::new();
        let mut i: usize = 0;
        assert(table_model(hm@) =~= Seq::<(Seq<u8>, Scalar)>::empty());
        while i < ws.len()
            invariant
                i <= ws@.len(),
                views(ws@) == words(line@),
                table_model(hm@) == words_table(views(ws@), i as int),
            decreases ws@.len() - i,
        {
            let mut w = splitn_bytes(ws[i].as_slice(), 0x3d, 2);
            assert(views(ws@)[i as int] == ws@[i as int]@);
            let ghost parts = views(w@);
            assert(parts.len() >= 1);
            let v = if w.len() > 1 {
                assert(parts[1] == w@[1]@);
                NumOrText::parse(w[1].as_slice())
            } else {
                let e: Vec<u8> = Vec::new();
                NumOrText::parse(e.as_slice())
            };
            assert(parts[0] == w@[0]@);
            let k = w.remove(0);
            put_entry(&mut hm, k, v);
            i += 1;
        }
        let out = match output {
            None => {
                return Ok(KeyValue(hm));
            },
            Some(o) => o,
        };
        let ghost table = table_model(hm@);
        let ghost om = crate::text::pairs_view(out@);
        let mut res: Vec<(Vec<u8>, NumOrText)> = Vec::new();
        let mut j: usize = 0;
        assert(table_model(res@) =~= Seq::<(Seq<u8>, Scalar)>::empty());
        while j < out.len()
            invariant
                j <= out@.len(),
                om == crate::text::pairs_view(out@),
                (table_model(hm@), table_model(res@)) == key_value_output(table, om, j as int),
            decreases out@.len() - j,
        {
            assert(om[j as int] == (out@[j as int].0@, out@[j as int].1@));
            let ghost t = table_model(hm@);
            match parse_placeholder(out[j].1.as_slice(), false) {
                Some(name) => {
                    proof {
                        assert(names(t) =~= keys_of(hm@));
                    }
                    let at = find_key(&hm, name.as_slice());
                    if at < hm.len() {
                        let e = hm.remove(at);
                        assert(table_model(hm@) =~= t.remove(at as int));
                        assert(e.1.model() == t[at as int].1);
                        put_entry(&mut res, clone_bytes(out[j].0.as_slice()), e.1);
                    }
                },
                None => {
                    put_entry(
                        &mut res,
                        clone_bytes(out[j].0.as_slice()),
                        NumOrText::Text(clone_bytes(out[j].1.as_slice())),
                    );
                },
            }
            j += 1;
        }
        Ok(KeyValue(res))
    }
}


/// The fields of a line of a separator format: the words between white
/// space where no separator is given, the parts between occurrences of the
/// separator's first byte otherwise.
pub open spec fn line_fields(line: Seq<u8>, separator: Seq<u8>) -> Seq<Seq<u8>> {
    if separator.len() == 0 || separator[0] == 0 {
        words(line)
    } else {
        split(line, separator[0])
    }
}

/// The entry of a separator format without an output mapping: the fields
/// under their numbers, counted from 1.
pub open spec fn numbered(fields: Seq<Seq<u8>>) -> Seq<(Scalar, Scalar)> {
    Seq::new(fields.len(), |i: int| (Scalar::Number((i + 1) as i64), scalar_of(fields[i])))
}

/// The result after the first `n` entries of an output mapping were
/// applied to the fields of a line. A template that is a placeholder with
/// the number of a field gives that field; a placeholder with any other
/// number drops the entry; any other template gives its own text.
pub open spec fn fields_output(
    fields: Seq<Seq<u8>>,
    output: Seq<(Seq<u8>, Seq<u8>)>,
    n: int,
) -> Seq<(Seq<u8>, Scalar)>
    decreases n,
{
    if n <= 0 {
        Seq::empty()
    } else {
        let res = fields_output(fields, output, n - 1);
        let (k, v) = output[n - 1];
        match placeholder(v, true) {
            Some(d) => match parse_unsigned(d, u64::MAX as nat) {
                Some(n) => if 1 <= n <= fields.len() {
                    put_value(res, k, scalar_of(fields[n - 1]))
                } else {
                    res
                },
                None => res,
            },
            None => put_value(res, k, scalar_of(v)),
        }
    }
}

/// The entry that a line of a separator format gives.
pub open spec fn fields_entry(
    line: Seq<u8>,
    output: Option<Seq<(Seq<u8>, Seq<u8>)>>,
    separator: Seq<u8>,
) -> Seq<(Scalar, Scalar)> {
    let fields = line_fields(line, separator);
    match output {
        None => numbered(fields),
        Some(o) => fields_output(fields, o, o.len() as int).map_values(
            |p: (Seq<u8>, Scalar)| (Scalar::Text(p.0), p.1),
        ),
    }
}

/// What a list of pairs of values holds.
pub open spec fn pairs_model(t: Seq<(NumOrText, NumOrText)>) -> Seq<(Scalar, Scalar)> {
    t.map_values(|p: (NumOrText, NumOrText)| (p.0.model(), p.1.model()))
}

impl Fields {
    /// Reads a line of a separator format. Without an output mapping the
    /// entry holds the fields under their numbers. With one, the entry
    /// holds the names of the mapping, each with the field that its
    /// template names or with the template's text.
    pub fn from_line(
        line: &[u8],
        output: &Option<Vec<(Vec<u8>, Vec<u8>)>>,
        separator: &[u8],
    ) -> (r: Result<Vec<(NumOrText, NumOrText)>, WnError>)
        ensures
            r matches Ok(e) && pairs_model(e@) == fields_entry(
                line@,
                opt_pairs_view(*output),
                separator@,
            ),
    {
        let fields = if separator.len() == 0 || separator[0] == 0 {
            split_words(line)
        } else {
            split_bytes(line, separator[0])
        };
        let ghost fs = line_fields(line@, separator@);
        assert(views(fields@) == fs);
        let out = match output {
            None => {
                let mut res: Vec<(NumOrText, NumOrText)> = Vec::new();
                let mut i: usize = 0;
                while i < fields.len()
                    invariant
                        i <= fields@.len(),
                        fs == views(fields@),
                        res@.len() == i,
                        forall|k: int|
                            0 <= k < i ==> (#[trigger] res@[k]).0.model() == Scalar::Number(
                                (k + 1) as i64,
                            ) && res@[k].1.model() == scalar_of(fs[k]),
                    decreases fields@.len() - i,
                {
                    assert(fs[i as int] == fields@[i as int]@);
                    let n: i64 = #[verifier::truncate]
                    ((i + 1) as i64);
                    res.push((NumOrText::Number(n), NumOrText::parse(fields[i].as_slice())));
                    i += 1;
                }
                assert(pairs_model(res@) =~= numbered(fs));
                return Ok(res);
            },
            Some(o) => o,
        };
        let ghost om = pairs_view(out@);
        let mut named: Vec<(Vec<u8>, NumOrText)> = Vec::new();
        let mut j: usize = 0;
        assert(table_model(named@) =~= Seq::<(Seq<u8>, Scalar)>::empty());
        while j < out.len()
            invariant
                j <= out@.len(),
                fs == views(fields@),
                om == pairs_view(out@),
                table_model(named@) == fields_output(fs, om, j as int),
            decreases out@.len() - j,
        {
            assert(om[j as int] == (out@[j as int].0@, out@[j as int].1@));
            match parse_placeholder(out[j].1.as_slice(), true) {
                Some(d) => {
                    let ghost before = table_model(named@);
                    proof {
                        assert(opt_view(Some(d)) == placeholder(om[j as int].1, true));
                    }
                    let count = fields.len();
                    match parse_number(d.as_slice(), u64::MAX) {
                        Some(n) => {
                            if 1 <= n && n <= count as u64 {
                                let at = (n - 1) as usize;
                                assert(fs[at as int] == fields@[at as int]@);
                                put_entry(
                                    &mut named,
                                    clone_bytes(out[j].0.as_slice()),
                                    NumOrText::parse(fields[at].as_slice()),
                                );
                            }
                        },
                        None => {},
                    }
                },
                None => {
                    let ghost before = table_model(named@);
                    proof {
                        assert(fields_output(fs, om, j + 1) == put_value(
                            before,
                            om[j as int].0,
                            scalar_of(om[j as int].1),
                        ));
                    }
                    put_entry(
                        &mut named,
                        clone_bytes(out[j].0.as_slice()),
                        NumOrText::parse(out[j].1.as_slice()),
                    );
                },
            }
            j += 1;
        }
        let ghost target = table_model(named@);
        let mut res: Vec<(NumOrText, NumOrText)> = Vec::new();
        while named.len() > 0
            invariant
                res@.len() + named@.len() == target.len(),
                table_model(named@) == target.skip(res@.len() as int),
                forall|k: int|
                    0 <= k < res@.len() ==> (#[trigger] res@[k]).0.model() == Scalar::Text(
                        target[k].0,
                    ) && res@[k].1.model() == target[k].1,
            decreases named@.len(),
        {
            let ghost before = table_model(named@);
            let e = named.remove(0);
            assert(before[0] == (e.0@, e.1.model()));
            assert(table_model(named@) =~= before.skip(1));
            assert(before.skip(1) =~= target.skip(res@.len() as int + 1));
            res.push((NumOrText::Text(e.0), e.1));
        }
        assert(pairs_model(res@) =~= target.map_values(
            |p: (Seq<u8>, Scalar)| (Scalar::Text(p.0), p.1),
        ));
        Ok(res)
    }
}


/// What a line of a map becomes.
#[derive(Debug, PartialEq, Eq)]
pub enum LineValue {
    /// The entry that the line stands for.
    Entry(Json),
    /// The line is JSON text and is to be read as such.
    JsonText(Vec<u8>),
}

/// The number or text that a JSON value holds, if it holds one.
pub open spec fn json_scalar(j: Json) -> Option<Scalar> {
    match j {
        Json::Int(n) => if -0x8000_0000_0000_0000 <= n <= 0x7fff_ffff_ffff_ffff {
            Some(Scalar::Number(n as i64))
        } else {
            None
        },
        Json::Text(t) => Some(Scalar::Text(t@)),
        _ => None,
    }
}

/// The names and values of an object whose members are numbers and texts.
pub open spec fn object_scalars(j: Json) -> Option<Seq<(Seq<u8>, Scalar)>> {
    match j {
        Json::Object(o) => if forall|i: int|
            0 <= i < o@.len() ==> json_scalar((#[trigger] o@[i]).1) is Some {
            Some(Seq::new(o@.len(), |i: int| (o@[i].0@, json_scalar(o@[i].1).unwrap())))
        } else {
            None
        },
        _ => None,
    }
}

/// The name that a key is written with in an object: a number in decimal.
pub open spec fn key_text(k: Scalar) -> Seq<u8> {
    match k {
        Scalar::Number(n) => signed_decimal(n as int),
        Scalar::Text(t) => t,
    }
}

/// The members of the object for an entry of a separator format.
pub open spec fn keyed_members(e: Seq<(Scalar, Scalar)>) -> Seq<(Seq<u8>, Scalar)> {
    e.map_values(|p: (Scalar, Scalar)| (key_text(p.0), p.1))
}

fn table_json(t: &Vec<(Vec<u8>, NumOrText)>) -> (r: Json)
    ensures
        object_scalars(r) == Some(table_model(t@)),
{
    let mut o: Vec<(Vec<u8>, Json)> = Vec::new();
    let mut i: usize = 0;
    while i < t.len()
        invariant
            i <= t@.len(),
            o@.len() == i,
            forall|k: int|
                0 <= k < i ==> (#[trigger] o@[k]).0@ == t@[k].0@ && json_scalar(o@[k].1) == Some(
                    t@[k].1.model(),
                ),
        decreases t@.len() - i,
    {
        o.push((clone_bytes(t[i].0.as_slice()), t[i].1.to_json()));
        i += 1;
    }
    let r = Json::Object(o);
    assert(object_scalars(r).unwrap() =~= table_model(t@));
    r
}

fn pairs_json(t: &Vec<(NumOrText, NumOrText)>) -> (r: Json)
    ensures
        object_scalars(r) == Some(keyed_members(pairs_model(t@))),
{
    let mut o: Vec<(Vec<u8>, Json)> = Vec::new();
    let mut i: usize = 0;
    while i < t.len()
        invariant
            i <= t@.len(),
            o@.len() == i,
            forall|k: int|
                0 <= k < i ==> (#[trigger] o@[k]).0@ == key_text(t@[k].0.model()) && json_scalar(
                    o@[k].1,
                ) == Some(t@[k].1.model()),
        decreases t@.len() - i,
    {
        let key = match &t[i].0 {
            NumOrText::Number(n) => {
                let mut k: Vec<u8> = Vec::new();
                push_signed(&mut k, *n);
                k
            },
            NumOrText::Text(x) => clone_bytes(x.as_slice()),
        };
        o.push((key, t[i].1.to_json()));
        i += 1;
    }
    let r = Json::Object(o);
    assert(object_scalars(r).unwrap() =~= keyed_members(pairs_model(t@)));
    r
}

/// The separator of a separator format; the line format has the line feed.
pub open spec fn separator_of(format: Format) -> Seq<u8> {
    match format {
        Format::ColSep => seq![0x3au8],
        Format::TabSep => seq![0x09u8],
        Format::Line => seq![0x0au8],
        _ => Seq::empty(),
    }
}

/// Whether `r` is what a line of a map in a format becomes. A user, group
/// or shadow record that cannot be read is refused as `DeserializeData`;
/// the other line formats take any line; JSON text is handed back to be read.
pub open spec fn converted(
    line: Seq<u8>,
    format: Format,
    output: Option<Seq<(Seq<u8>, Seq<u8>)>>,
    r: Result<LineValue, WnError>,
) -> bool {
    let f = split(line, 0x3a);
    match format {
        Format::Passwd => if passwd_record(line) {
            r matches Ok(LineValue::Entry(j)) && passwd_shape(j) && text_field(j, lit("username"))
                == Some(f[0]) && text_field(j, lit("passwd")) == Some(f[1]) && small_field(
                j,
                lit("uid"),
            ) == Some(parse_unsigned(f[2], 0xffff_ffff).unwrap() as u32) && small_field(
                j,
                lit("gid"),
            ) == Some(parse_unsigned(f[3], 0xffff_ffff).unwrap() as u32) && text_field(
                j,
                lit("gecos"),
            ) == Some(f[4]) && text_field(j, lit("dir")) == Some(f[5]) && text_field(
                j,
                lit("shell"),
            ) == Some(f[6])
        } else {
            r matches Err(e) && e == WnError::DeserializeData
        },
        Format::Group => if group_record(line) {
            r matches Ok(LineValue::Entry(j)) && group_shape(j) && text_field(j, lit("name"))
                == Some(f[0]) && text_field(j, lit("passwd")) == Some(f[1]) && small_field(
                j,
                lit("gid"),
            ) == Some(parse_unsigned(f[2], 0xffff_ffff).unwrap() as u32) && texts_field(
                j,
                lit("mem"),
            ) == Some(split(f[3], 0x2c))
        } else {
            r matches Err(e) && e == WnError::DeserializeData
        },
        Format::Adjunct => if f.len() >= 2 {
            r matches Ok(LineValue::Entry(j)) && j.members() == Some(2nat) && text_field(
                j,
                lit("name"),
            ) == Some(f[0]) && text_field(j, lit("passwd")) == Some(f[1])
        } else {
            r matches Err(e) && e == WnError::DeserializeData
        },
        Format::KeyValue => r matches Ok(LineValue::Entry(j)) && object_scalars(j) == Some(
            key_value_entry(line, output),
        ),
        Format::Json => r matches Ok(LineValue::JsonText(t)) && t@ == line,
        _ => r matches Ok(LineValue::Entry(j)) && object_scalars(j) == Some(
            keyed_members(fields_entry(line, output, separator_of(format))),
        ),
    }
}

/// Turns a line of a map into its entry, as the map's format says.
pub fn line_to_json(line: &[u8], format: &Format, output: &Option<Vec<(Vec<u8>, Vec<u8>)>>) -> (r:
    Result<LineValue, WnError>)
    ensures
        converted(line@, *format, opt_pairs_view(*output), r),
{
    match format {
        Format::Passwd => match Passwd::from_line(line) {
            Ok(p) => Ok(LineValue::Entry(p.to_json())),
            Err(e) => Err(e),
        },
        Format::Group => match Group::from_line(line) {
            Ok(g) => Ok(LineValue::Entry(g.to_json())),
            Err(e) => Err(e),
        },
        Format::Adjunct => match Adjunct::from_line(line) {
            Ok(a) => Ok(LineValue::Entry(a.to_json())),
            Err(e) => Err(e),
        },
        Format::KeyValue => match KeyValue::from_line(line, output) {
            Ok(kv) => Ok(LineValue::Entry(table_json(&kv.0))),
            Err(e) => Err(e),
        },
        Format::ColSep => {
            let sep: [u8; 1] = [0x3a];
            match Fields::from_line(line, output, sep.as_slice()) {
                Ok(e) => Ok(LineValue::Entry(pairs_json(&e))),
                Err(e) => Err(e),
            }
        },
        Format::WsSep => {
            let sep: [u8; 0] = [];
            match Fields::from_line(line, output, sep.as_slice()) {
                Ok(e) => Ok(LineValue::Entry(pairs_json(&e))),
                Err(e) => Err(e),
            }
        },
        Format::TabSep => {
            let sep: [u8; 1] = [0x09];
            match Fields::from_line(line, output, sep.as_slice()) {
                Ok(e) => Ok(LineValue::Entry(pairs_json(&e))),
                Err(e) => Err(e),
            }
        },
        Format::Line => {
            let sep: [u8; 1] = [0x0a];
            match Fields::from_line(line, output, sep.as_slice()) {
                Ok(e) => Ok(LineValue::Entry(pairs_json(&e))),
                Err(e) => Err(e),
            }
        },
        Format::Json => Ok(LineValue::JsonText(clone_bytes(line))),
    }
}

} // verus!
