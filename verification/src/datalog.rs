//! The data log of logins: the reasons a login can fail for, and the two
//! lines that are written for each login.

use vstd::prelude::*;
use crate::errors::WnError;
use crate::json::Json;
use crate::lua::{Request, ScriptValue};
use crate::text::{
    bytes_eq, clone_bytes, decimal, join, join_bytes, lit, opt_view, push_all, push_decimal,
    views,
};

verus! {

/// The reasons that a login is rejected for, as the accounting knows them.
#[allow(non_camel_case_types)]
#[derive(PartialEq, Eq, Structural, Clone, Copy, Debug)]
pub enum Error {
    RQ_USERNAME,
    RQ_PASSWD,
    RQ_CIRCUIT,
    RQ_IMSI,
    RQ_CALLERID,
    RQ_CHAP,
    BAD_USERNAME,
    BAD_PASSWD,
    UC_USERNAME,
    NO_IPADDR,
    NO_CIRCUIT,
    WRONG_NRP,
    WRONG_ENCAPS,
    DIALIN_BLACKLIST,
    XSH_ABUSE,
    XSH_NETIQUETTE,
    XSH_DELETED,
    XSH_NOPAY,
    XSH_GENERIC,
    INV_SHELL,
    INV_VANGPAGINA,
    NO_SHELLHOST,
    NO_VLAN,
    WRONG_APN,
    NO_OTPHOST,
    NO_OTPHOST_SECRET,
    OTP_SERVER_TIMEOUT,
    DES_PASSWD,
    GENERIC,
}

/// The number of reasons.
pub const ERROR_COUNT: usize = 29;

impl Error {
    /// The reason with a number; every number without a reason of its own is `GENERIC`.
    pub open spec fn numbered(num: int) -> Error {
        if num == 0 {
            Error::RQ_USERNAME
        } else if num == 1 {
            Error::RQ_PASSWD
        } else if num == 2 {
            Error::RQ_CIRCUIT
        } else if num == 3 {
            Error::RQ_IMSI
        } else if num == 4 {
            Error::RQ_CALLERID
        } else if num == 5 {
            Error::RQ_CHAP
        } else if num == 6 {
            Error::BAD_USERNAME
        } else if num == 7 {
            Error::BAD_PASSWD
        } else if num == 8 {
            Error::UC_USERNAME
        } else if num == 9 {
            Error::NO_IPADDR
        } else if num == 10 {
            Error::NO_CIRCUIT
        } else if num == 11 {
            Error::WRONG_NRP
        } else if num == 12 {
            Error::WRONG_ENCAPS
        } else if num == 13 {
            Error::DIALIN_BLACKLIST
        } else if num == 14 {
            Error::XSH_ABUSE
        } else if num == 15 {
            Error::XSH_NETIQUETTE
        } else if num == 16 {
            Error::XSH_DELETED
        } else if num == 17 {
            Error::XSH_NOPAY
        } else if num == 18 {
            Error::XSH_GENERIC
        } else if num == 19 {
            Error::INV_SHELL
        } else if num == 20 {
            Error::INV_VANGPAGINA
        } else if num == 21 {
            Error::NO_SHELLHOST
        } else if num == 22 {
            Error::NO_VLAN
        } else if num == 23 {
            Error::WRONG_APN
        } else if num == 24 {
            Error::NO_OTPHOST
        } else if num == 25 {
            Error::NO_OTPHOST_SECRET
        } else if num == 26 {
            Error::OTP_SERVER_TIMEOUT
        } else if num == 27 {
            Error::DES_PASSWD
        } else {
            Error::GENERIC
        }
    }

    /// The number of reasons.
    pub fn count() -> (r: usize)
        ensures
            r == ERROR_COUNT,
    {
        ERROR_COUNT
    }

    /// The number of a reason.
    pub fn index(&self) -> (r: usize)
        ensures
            r < ERROR_COUNT,
            Error::numbered(r as int) == *self,
    {
        match self {
            Error::RQ_USERNAME => 0,
            Error::RQ_PASSWD => 1,
            Error::RQ_CIRCUIT => 2,
            Error::RQ_IMSI => 3,
            Error::RQ_CALLERID => 4,
            Error::RQ_CHAP => 5,
            Error::BAD_USERNAME => 6,
            Error::BAD_PASSWD => 7,
            Error::UC_USERNAME => 8,
            Error::NO_IPADDR => 9,
            Error::NO_CIRCUIT => 10,
            Error::WRONG_NRP => 11,
            Error::WRONG_ENCAPS => 12,
            Error::DIALIN_BLACKLIST => 13,
            Error::XSH_ABUSE => 14,
            Error::XSH_NETIQUETTE => 15,
            Error::XSH_DELETED => 16,
            Error::XSH_NOPAY => 17,
            Error::XSH_GENERIC => 18,
            Error::INV_SHELL => 19,
            Error::INV_VANGPAGINA => 20,
            Error::NO_SHELLHOST => 21,
            Error::NO_VLAN => 22,
            Error::WRONG_APN => 23,
            Error::NO_OTPHOST => 24,
            Error::NO_OTPHOST_SECRET => 25,
            Error::OTP_SERVER_TIMEOUT => 26,
            Error::DES_PASSWD => 27,
            Error::GENERIC => 28,
        }
    }

    /// The reason with a number.
    pub fn from_usize(num: usize) -> (r: Error)
        ensures
            r == Error::numbered(num as int),
    {
        match num {
            0 => Error::RQ_USERNAME,
            1 => Error::RQ_PASSWD,
            2 => Error::RQ_CIRCUIT,
            3 => Error::RQ_IMSI,
            4 => Error::RQ_CALLERID,
            5 => Error::RQ_CHAP,
            6 => Error::BAD_USERNAME,
            7 => Error::BAD_PASSWD,
            8 => Error::UC_USERNAME,
            9 => Error::NO_IPADDR,
            10 => Error::NO_CIRCUIT,
            11 => Error::WRONG_NRP,
            12 => Error::WRONG_ENCAPS,
            13 => Error::DIALIN_BLACKLIST,
            14 => Error::XSH_ABUSE,
            15 => Error::XSH_NETIQUETTE,
            16 => Error::XSH_DELETED,
            17 => Error::XSH_NOPAY,
            18 => Error::XSH_GENERIC,
            19 => Error::INV_SHELL,
            20 => Error::INV_VANGPAGINA,
            21 => Error::NO_SHELLHOST,
            22 => Error::NO_VLAN,
            23 => Error::WRONG_APN,
            24 => Error::NO_OTPHOST,
            25 => Error::NO_OTPHOST_SECRET,
            26 => Error::OTP_SERVER_TIMEOUT,
            27 => Error::DES_PASSWD,
            _ => Error::GENERIC,
        }
    }

    /// What the user is told.
    pub open spec fn reply_text(self) -> Seq<u8> {
        match self {
            Error::RQ_USERNAME => lit("No username in request"),
            Error::RQ_PASSWD => lit("No password in request"),
            Error::RQ_CIRCUIT => lit("No circuit in request"),
            Error::RQ_IMSI => lit("No IMSI in request"),
            Error::RQ_CALLERID => lit("No caller-id in request"),
            Error::RQ_CHAP => lit("CHAP authentication not supported"),
            Error::UC_USERNAME => lit("Uppercase letters in username"),
            Error::NO_IPADDR => lit("No IP address found in database"),
            Error::NO_CIRCUIT => lit("Circuit not found in database"),
            Error::NO_VLAN => lit("VLAN not found in database"),
            Error::WRONG_NRP => lit("Login from invalid NRP"),
            Error::WRONG_APN => lit("Login from invalid APN"),
            Error::WRONG_ENCAPS => lit("Wrong encapsulation"),
            Error::NO_OTPHOST => lit("OTP server unavailable"),
            Error::NO_OTPHOST_SECRET => lit("OTP server unavailable"),
            Error::OTP_SERVER_TIMEOUT => lit("OTP server unavailable"),
            _ => lit("Login incorrect"),
        }
    }

    /// What the user is told.
    pub fn as_reply(&self) -> (r: &'static [u8])
        ensures
            r@ == self.reply_text(),
    {
        match self {
            Error::RQ_USERNAME => "No username in request".as_bytes(),
            Error::RQ_PASSWD => "No password in request".as_bytes(),
            Error::RQ_CIRCUIT => "No circuit in request".as_bytes(),
            Error::RQ_IMSI => "No IMSI in request".as_bytes(),
            Error::RQ_CALLERID => "No caller-id in request".as_bytes(),
            Error::RQ_CHAP => "CHAP authentication not supported".as_bytes(),
            Error::UC_USERNAME => "Uppercase letters in username".as_bytes(),
            Error::NO_IPADDR => "No IP address found in database".as_bytes(),
            Error::NO_CIRCUIT => "Circuit not found in database".as_bytes(),
            Error::NO_VLAN => "VLAN not found in database".as_bytes(),
            Error::WRONG_NRP => "Login from invalid NRP".as_bytes(),
            Error::WRONG_APN => "Login from invalid APN".as_bytes(),
            Error::WRONG_ENCAPS => "Wrong encapsulation".as_bytes(),
            Error::NO_OTPHOST => "OTP server unavailable".as_bytes(),
            Error::NO_OTPHOST_SECRET => "OTP server unavailable".as_bytes(),
            Error::OTP_SERVER_TIMEOUT => "OTP server unavailable".as_bytes(),
            _ => "Login incorrect".as_bytes(),
        }
    }

    /// What the log says.
    pub open spec fn log_text(self) -> Seq<u8> {
        match self {
            Error::RQ_USERNAME => lit("no username in request"),
            Error::RQ_PASSWD => lit("no password in request"),
            Error::RQ_CIRCUIT => lit("no circuit in request"),
            Error::RQ_IMSI => lit("No IMSI in request"),
            Error::RQ_CALLERID => lit("no caller-id in request"),
            Error::RQ_CHAP => lit("CHAP authentication not supported"),
            Error::BAD_USERNAME => lit("user unknown"),
            Error::BAD_PASSWD => lit("password incorrect"),
            Error::DES_PASSWD => lit("password invalid (DES)"),
            Error::UC_USERNAME => lit("uppercase letters in username"),
            Error::NO_IPADDR => lit("no IP address found in database"),
            Error::NO_CIRCUIT => lit("circuit not found in database"),
            Error::NO_VLAN => lit("VLAN not found in database"),
            Error::WRONG_NRP => lit("login from invalid NRP"),
            Error::WRONG_APN => lit("Login from invalid APN"),
            Error::WRONG_ENCAPS => lit("wrong encapsulation"),
            Error::DIALIN_BLACKLIST => lit("blacklisted caller-id"),
            Error::XSH_ABUSE => lit("xsh-abuse shell"),
            Error::XSH_NETIQUETTE => lit("xsh-netiquette shell"),
            Error::XSH_DELETED => lit("xsh-deleted shell"),
            Error::XSH_NOPAY => lit("xsh-nopay shell"),
            Error::XSH_GENERIC => lit("xsh shell"),
            Error::INV_SHELL => lit("invalid shell"),
            Error::INV_VANGPAGINA => lit("invalid vangpagina"),
            Error::NO_SHELLHOST => lit("Shell host does not resolve"),
            Error::NO_OTPHOST => lit("OTP host does not resolve"),
            Error::NO_OTPHOST_SECRET => lit("OTP host not in radiushosts"),
            Error::OTP_SERVER_TIMEOUT => lit("OTP server timeout"),
            Error::GENERIC => lit("login incorrect"),
        }
    }

    /// What the log says.
    pub fn as_log_message(&self) -> (r: &'static [u8])
        ensures
            r@ == self.log_text(),
    {
        match self {
            Error::RQ_USERNAME => "no username in request".as_bytes(),
            Error::RQ_PASSWD => "no password in request".as_bytes(),
            Error::RQ_CIRCUIT => "no circuit in request".as_bytes(),
            Error::RQ_IMSI => "No IMSI in request".as_bytes(),
            Error::RQ_CALLERID => "no caller-id in request".as_bytes(),
            Error::RQ_CHAP => "CHAP authentication not supported".as_bytes(),
            Error::BAD_USERNAME => "user unknown".as_bytes(),
            Error::BAD_PASSWD => "password incorrect".as_bytes(),
            Error::DES_PASSWD => "password invalid (DES)".as_bytes(),
            Error::UC_USERNAME => "uppercase letters in username".as_bytes(),
            Error::NO_IPADDR => "no IP address found in database".as_bytes(),
            Error::NO_CIRCUIT => "circuit not found in database".as_bytes(),
            Error::NO_VLAN => "VLAN not found in database".as_bytes(),
            Error::WRONG_NRP => "login from invalid NRP".as_bytes(),
            Error::WRONG_APN => "Login from invalid APN".as_bytes(),
            Error::WRONG_ENCAPS => "wrong encapsulation".as_bytes(),
            Error::DIALIN_BLACKLIST => "blacklisted caller-id".as_bytes(),
            Error::XSH_ABUSE => "xsh-abuse shell".as_bytes(),
            Error::XSH_NETIQUETTE => "xsh-netiquette shell".as_bytes(),
            Error::XSH_DELETED => "xsh-deleted shell".as_bytes(),
            Error::XSH_NOPAY => "xsh-nopay shell".as_bytes(),
            Error::XSH_GENERIC => "xsh shell".as_bytes(),
            Error::INV_SHELL => "invalid shell".as_bytes(),
            Error::INV_VANGPAGINA => "invalid vangpagina".as_bytes(),
            Error::NO_SHELLHOST => "Shell host does not resolve".as_bytes(),
            Error::NO_OTPHOST => "OTP host does not resolve".as_bytes(),
            Error::NO_OTPHOST_SECRET => "OTP host not in radiushosts".as_bytes(),
            Error::OTP_SERVER_TIMEOUT => "OTP server timeout".as_bytes(),
            Error::GENERIC => "login incorrect".as_bytes(),
        }
    }

    /// The name that scripts know the reason by.
    pub open spec fn name_text(self) -> Seq<u8> {
        match self {
            Error::RQ_USERNAME => lit("RQ_USERNAME"),
            Error::RQ_PASSWD => lit("RQ_PASSWD"),
            Error::RQ_CIRCUIT => lit("RQ_CIRCUIT"),
            Error::RQ_IMSI => lit("RQ_IMSI"),
            Error::RQ_CALLERID => lit("RQ_CALLERID"),
            Error::RQ_CHAP => lit("RQ_CHAP"),
            Error::BAD_USERNAME => lit("BAD_USERNAME"),
            Error::BAD_PASSWD => lit("BAD_PASSWD"),
            Error::UC_USERNAME => lit("UC_USERNAME"),
            Error::NO_IPADDR => lit("NO_IPADDR"),
            Error::NO_CIRCUIT => lit("NO_CIRCUIT"),
            Error::WRONG_NRP => lit("WRONG_NRP"),
            Error::WRONG_ENCAPS => lit("WRONG_ENCAPS"),
            Error::DIALIN_BLACKLIST => lit("DIALIN_BLACKLIST"),
            Error::XSH_ABUSE => lit("XSH_ABUSE"),
            Error::XSH_NETIQUETTE => lit("XSH_NETIQUETTE"),
            Error::XSH_DELETED => lit("XSH_DELETED"),
            Error::XSH_NOPAY => lit("XSH_NOPAY"),
            Error::XSH_GENERIC => lit("XSH_GENERIC"),
            Error::INV_SHELL => lit("INV_SHELL"),
            Error::INV_VANGPAGINA => lit("INV_VANGPAGINA"),
            Error::NO_SHELLHOST => lit("NO_SHELLHOST"),
            Error::NO_VLAN => lit("NO_VLAN"),
            Error::WRONG_APN => lit("WRONG_APN"),
            Error::NO_OTPHOST => lit("NO_OTPHOST"),
            Error::NO_OTPHOST_SECRET => lit("NO_OTPHOST_SECRET"),
            Error::OTP_SERVER_TIMEOUT => lit("OTP_SERVER_TIMEOUT"),
            Error::DES_PASSWD => lit("DES_PASSWD"),
            Error::GENERIC => lit("GENERIC"),
        }
    }

    /// The name that scripts know the reason by.
    pub fn name(&self) -> (r: &'static [u8])
        ensures
            r@ == self.name_text(),
    {
        match self {
            Error::RQ_USERNAME => "RQ_USERNAME".as_bytes(),
            Error::RQ_PASSWD => "RQ_PASSWD".as_bytes(),
            Error::RQ_CIRCUIT => "RQ_CIRCUIT".as_bytes(),
            Error::RQ_IMSI => "RQ_IMSI".as_bytes(),
            Error::RQ_CALLERID => "RQ_CALLERID".as_bytes(),
            Error::RQ_CHAP => "RQ_CHAP".as_bytes(),
            Error::BAD_USERNAME => "BAD_USERNAME".as_bytes(),
            Error::BAD_PASSWD => "BAD_PASSWD".as_bytes(),
            Error::UC_USERNAME => "UC_USERNAME".as_bytes(),
            Error::NO_IPADDR => "NO_IPADDR".as_bytes(),
            Error::NO_CIRCUIT => "NO_CIRCUIT".as_bytes(),
            Error::WRONG_NRP => "WRONG_NRP".as_bytes(),
            Error::WRONG_ENCAPS => "WRONG_ENCAPS".as_bytes(),
            Error::DIALIN_BLACKLIST => "DIALIN_BLACKLIST".as_bytes(),
            Error::XSH_ABUSE => "XSH_ABUSE".as_bytes(),
            Error::XSH_NETIQUETTE => "XSH_NETIQUETTE".as_bytes(),
            Error::XSH_DELETED => "XSH_DELETED".as_bytes(),
            Error::XSH_NOPAY => "XSH_NOPAY".as_bytes(),
            Error::XSH_GENERIC => "XSH_GENERIC".as_bytes(),
            Error::INV_SHELL => "INV_SHELL".as_bytes(),
            Error::INV_VANGPAGINA => "INV_VANGPAGINA".as_bytes(),
            Error::NO_SHELLHOST => "NO_SHELLHOST".as_bytes(),
            Error::NO_VLAN => "NO_VLAN".as_bytes(),
            Error::WRONG_APN => "WRONG_APN".as_bytes(),
            Error::NO_OTPHOST => "NO_OTPHOST".as_bytes(),
            Error::NO_OTPHOST_SECRET => "NO_OTPHOST_SECRET".as_bytes(),
            Error::OTP_SERVER_TIMEOUT => "OTP_SERVER_TIMEOUT".as_bytes(),
            Error::DES_PASSWD => "DES_PASSWD".as_bytes(),
            Error::GENERIC => "GENERIC".as_bytes(),
        }
    }
}

/// Every reason with its number and its name, in the order of the numbers.
pub fn error_iter() -> (r: Vec<(Error, usize, Vec<u8>)>)
    ensures
        r@.len() == ERROR_COUNT,
        forall|i: int|
            0 <= i < ERROR_COUNT ==> (#[trigger] r@[i]).0 == Error::numbered(i) && r@[i].1 == i
                && r@[i].2@ == Error::numbered(i).name_text(),
{
    let mut r: Vec<(Error, usize, Vec<u8>)> = Vec::new();
    let mut c: usize = 0;
    while c < ERROR_COUNT
        invariant
            c <= ERROR_COUNT,
            r@.len() == c,
            forall|i: int|
                0 <= i < c ==> (#[trigger] r@[i]).0 == Error::numbered(i) && r@[i].1 == i
                    && r@[i].2@ == Error::numbered(i).name_text(),
        decreases ERROR_COUNT - c,
    {
        let e = Error::from_usize(c);
        r.push((e, c, clone_bytes(e.name())));
        c += 1;
    }
    r
}


/// Whether a character below 256 is written as an escape: controls,
/// everything past `~`, and the characters `'`, `"`, `` ` ``, `(`, `)`,
/// `[`, `]`, `\` and `,`.
pub open spec fn needs_escape(cx: int) -> bool {
    cx < 32 || cx > 126 || cx == 0x27 || cx == 0x22 || cx == 0x60 || cx == 0x28 || cx == 0x29
        || cx == 0x5b || cx == 0x5d || cx == 0x5c || cx == 0x2c
}

/// A backslash and the three octal digits of a number below 256.
pub open spec fn octal(cx: int) -> Seq<u8> {
    seq![0x5cu8, (48 + cx / 64) as u8, (48 + (cx / 8) % 8) as u8, (48 + cx % 8) as u8]
}

/// Whether a byte continues a character of a UTF-8 text.
pub open spec fn is_cont(b: u8) -> bool {
    0x80 <= b && b <= 0xbf
}

/// The number of bytes of the character at the front of a UTF-8 text; a
/// byte that starts no character counts as one of its own.
pub open spec fn char_len(s: Seq<u8>) -> int {
    if 0xc2 <= s[0] && s[0] <= 0xdf && s.len() >= 2 && is_cont(s[1]) {
        2
    } else if 0xe0 <= s[0] && s[0] <= 0xef && s.len() >= 3 && is_cont(s[1]) && is_cont(s[2]) {
        3
    } else if 0xf0 <= s[0] && s[0] <= 0xf4 && s.len() >= 4 && is_cont(s[1]) && is_cont(s[2])
        && is_cont(s[3]) {
        4
    } else {
        1
    }
}

/// The number of the character at the front of a UTF-8 text.
pub open spec fn code_point(s: Seq<u8>) -> int {
    if char_len(s) == 2 {
        (s[0] - 0xc0) * 64 + (s[1] - 0x80)
    } else if char_len(s) == 3 {
        (s[0] - 0xe0) * 4096 + (s[1] - 0x80) * 64 + (s[2] - 0x80)
    } else if char_len(s) == 4 {
        (s[0] - 0xf0) * 262144 + (s[1] - 0x80) * 4096 + (s[2] - 0x80) * 64 + (s[3] - 0x80)
    } else {
        s[0] as int
    }
}

/// The lower-case hexadecimal digit for a value below 16.
pub open spec fn hex_lower(n: int) -> u8 {
    if n < 10 {
        (48 + n) as u8
    } else {
        (87 + n) as u8
    }
}

/// The hexadecimal digits of a number, without leading zeros.
pub open spec fn hex_digits(n: nat) -> Seq<u8>
    decreases n,
{
    if n < 16 {
        seq![hex_lower(n as int)]
    } else {
        hex_digits(n / 16).push(hex_lower((n % 16) as int))
    }
}

/// How one character is written in the log: as it is, as an octal escape
/// if it is below 256 and needs one, and as `\u{..}` with its number in
/// hexadecimal otherwise.
pub open spec fn sanitized_char(cx: int) -> Seq<u8> {
    if cx < 256 {
        if needs_escape(cx) {
            octal(cx)
        } else {
            seq![cx as u8]
        }
    } else {
        seq![0x5cu8, 0x75u8, 0x7bu8] + hex_digits(cx as nat) + seq![0x7du8]
    }
}

/// A UTF-8 text as it is written in the log.
pub open spec fn sanitized(s: Seq<u8>) -> Seq<u8>
    decreases s.len(),
{
    if s.len() == 0 {
        Seq::empty()
    } else {
        sanitized_char(code_point(s)) + sanitized(s.skip(char_len(s)))
    }
}

fn push_hex(out: &mut Vec<u8>, n: u32)
    ensures
        final(out)@ == old(out)@ + hex_digits(n as nat),
    decreases n,
{
    if n >= 16 {
        push_hex(out, n / 16);
    }
    let d = (n % 16) as u8;
    out.push(if d < 10 { 48 + d } else { 87 + d });
    assert(final(out)@ =~= old(out)@ + hex_digits(n as nat));
}

/// Makes a text fit for the log.
pub fn sanitize(s: &[u8]) -> (r: Vec<u8>)
    ensures
        r@ == sanitized(s@),
{
    let mut r: Vec<u8> = Vec::new();
    let mut i: usize = 0;
    let n = s.len();
    proof {
        assert(s@.skip(0) == s@);
    }
    while i < n
        invariant
            n == s@.len(),
            i <= n,
            sanitized(s@) == r@ + sanitized(s@.skip(i as int)),
        decreases n - i,
    {
        let ghost t = s@.skip(i as int);
        let a = s[i];
        proof {
            assert(t[0] == a);
            if n - i >= 2 {
                assert(t[1] == s@[i + 1]);
            }
            if n - i >= 3 {
                assert(t[2] == s@[i + 2]);
            }
            if n - i >= 4 {
                assert(t[3] == s@[i + 3]);
            }
        }
        let mut len: usize = 1;
        let mut cx: u32 = a as u32;
        if 0xc2 <= a && a <= 0xdf && n - i >= 2 && 0x80 <= s[i + 1] && s[i + 1] <= 0xbf {
            len = 2;
            cx = ((a - 0xc0) as u32) * 64 + ((s[i + 1] - 0x80) as u32);
        } else if 0xe0 <= a && a <= 0xef && n - i >= 3 && 0x80 <= s[i + 1] && s[i + 1] <= 0xbf
            && 0x80 <= s[i + 2] && s[i + 2] <= 0xbf {
            len = 3;
            cx = ((a - 0xe0) as u32) * 4096 + ((s[i + 1] - 0x80) as u32) * 64 + ((s[i + 2]
                - 0x80) as u32);
        } else if 0xf0 <= a && a <= 0xf4 && n - i >= 4 && 0x80 <= s[i + 1] && s[i + 1] <= 0xbf
            && 0x80 <= s[i + 2] && s[i + 2] <= 0xbf && 0x80 <= s[i + 3] && s[i + 3] <= 0xbf {
            len = 4;
            cx = ((a - 0xf0) as u32) * 262144 + ((s[i + 1] - 0x80) as u32) * 4096 + ((s[i + 2]
                - 0x80) as u32) * 64 + ((s[i + 3] - 0x80) as u32);
        }
        assert(len == char_len(t));
        assert(cx == code_point(t));
        let ghost before = r@;
        if cx < 256 {
            if cx < 32 || cx > 126 || cx == 0x27 || cx == 0x22 || cx == 0x60 || cx == 0x28 || cx
                == 0x29 || cx == 0x5b || cx == 0x5d || cx == 0x5c || cx == 0x2c {
                r.push(0x5c);
                r.push((48 + cx / 64) as u8);
                r.push((48 + (cx / 8) % 8) as u8);
                r.push((48 + cx % 8) as u8);
            } else {
                r.push(cx as u8);
            }
        } else {
            r.push(0x5c);
            r.push(0x75);
            r.push(0x7b);
            push_hex(&mut r, cx);
            r.push(0x7d);
        }
        proof {
            assert(r@ =~= before + sanitized_char(cx as int));
            assert(t.skip(len as int) == s@.skip(i + len));
            assert(sanitized(t) == sanitized_char(cx as int) + sanitized(t.skip(len as int)));
            assert(sanitized(s@) =~= r@ + sanitized(s@.skip(i + len)));
        }
        i += len;
    }
    proof {
        assert(sanitized(s@.skip(i as int)) =~= Seq::<u8>::empty());
    }
    r
}

/// An attribute with a bare value: the number, a colon, the value.
pub open spec fn item_attr(attr: nat, item: Seq<u8>) -> Seq<u8> {
    decimal(attr) + seq![0x3au8] + item
}

/// An attribute with a text: the number, a colon, and the text, made fit
/// for the log, between double quotes.
pub open spec fn string_attr(attr: nat, msg: Seq<u8>) -> Seq<u8> {
    decimal(attr) + seq![0x3au8, 0x22u8] + sanitized(msg) + seq![0x22u8]
}

/// A text with a full stop in the place of each `:`, `;`, `"` and `,`.
pub open spec fn dotted(msg: Seq<u8>) -> Seq<u8> {
    msg.map_values(
        |b: u8|
            if b == 0x3a || b == 0x3b || b == 0x22 || b == 0x2c {
                0x2eu8
            } else {
                b
            },
    )
}

/// An attribute that names an account: a text attribute whose text is
/// `XS4/401:` and the account with its troublesome characters replaced.
pub open spec fn xs401_attr(attr: nat, msg: Seq<u8>) -> Seq<u8> {
    string_attr(attr, lit("XS4/401:") + dotted(msg))
}

/// Writes an attribute with a bare value.
pub fn attr_item(attr: usize, item: &[u8]) -> (r: Vec<u8>)
    ensures
        r@ == item_attr(attr as nat, item@),
{
    let mut r: Vec<u8> = Vec::new();
    push_decimal(&mut r, attr as u64);
    r.push(0x3a);
    push_all(&mut r, item);
    r
}

/// Writes an attribute with a text.
pub fn attr_string(attr: usize, msg: &[u8]) -> (r: Vec<u8>)
    ensures
        r@ == string_attr(attr as nat, msg@),
{
    let mut r: Vec<u8> = Vec::new();
    push_decimal(&mut r, attr as u64);
    r.push(0x3a);
    r.push(0x22);
    let t = sanitize(msg);
    push_all(&mut r, t.as_slice());
    r.push(0x22);
    assert(r@ =~= string_attr(attr as nat, msg@));
    r
}

/// Writes an attribute that names an account.
pub fn attr_xs401(attr: usize, msg: &[u8]) -> (r: Vec<u8>)
    ensures
        r@ == xs401_attr(attr as nat, msg@),
{
    let mut m: Vec<u8> = Vec::new();
    push_all(&mut m, "XS4/401:".as_bytes());
    let ghost head = m@;
    let mut i: usize = 0;
    while i < msg.len()
        invariant
            i <= msg@.len(),
            head == lit("XS4/401:"),
            m@ == head + dotted(msg@.take(i as int)),
        decreases msg@.len() - i,
    {
        let b = msg[i];
        let d: u8 = if b == 0x3a || b == 0x3b || b == 0x22 || b == 0x2c {
            0x2e
        } else {
            b
        };
        proof {
            assert(msg@.take(i + 1) == msg@.take(i as int).push(b));
            assert(dotted(msg@.take(i as int).push(b)) == dotted(msg@.take(i as int)).push(d));
        }
        m.push(d);
        assert(m@ =~= head + dotted(msg@.take(i + 1)));
        i += 1;
    }
    proof {
        assert(msg@.take(i as int) == msg@);
    }
    attr_string(attr, m.as_slice())
}

/// What is logged of a login.
#[derive(Debug, PartialEq, Eq)]
pub struct Datalog {
    /// When the request came, in seconds since the epoch, if the clock could tell.
    pub time: Option<u64>,
    /// The address that the request came from, as text.
    pub src_ip: Vec<u8>,
    /// The user name as it was sent.
    pub username: Vec<u8>,
    /// The account that the user name stands for.
    pub account: Option<Vec<u8>>,
    /// The address of the user's machine, as text.
    pub clientip: Option<Vec<u8>>,
    /// The system that the user called.
    pub callingsystem: Option<Vec<u8>>,
    /// Whether the login was accepted, and if not, why.
    pub status: Result<(), Error>,
    /// A message in the place of the reason's own.
    pub message: Option<Vec<u8>>,
}

/// The time that is logged where the clock could not tell.
pub const FALLBACK_TIME: u64 = 1558735200;

/// The fields of the line for the request.
pub open spec fn request_fields(d: Datalog) -> Seq<Seq<u8>> {
    let time = decimal(
        match d.time {
            Some(t) => t as nat,
            None => FALLBACK_TIME as nat,
        },
    );
    seq![
        time,
        d.src_ip@,
        lit("1"),
        string_attr(1, d.username@),
        lit("2:\"\""),
        item_attr(4, d.src_ip@),
    ] + (match d.callingsystem {
        Some(s) => seq![string_attr(32, s@)],
        None => Seq::empty(),
    }) + (match d.clientip {
        Some(ip) => seq![string_attr(31, ip@)],
        None => Seq::empty(),
    })
}

/// The fields of the line for the reply. The code is 2 for an accepted
/// login and 3 for a rejected one. An account that differs from the user
/// name is named twice; where no account is named, an empty field stands
/// in. A rejected login has its message and what the user was told.
pub open spec fn reply_fields(d: Datalog) -> Seq<Seq<u8>> {
    let time = decimal(
        match d.time {
            Some(t) => t as nat,
            None => FALLBACK_TIME as nat,
        },
    );
    seq![
        time,
        d.src_ip@,
        if d.status is Ok {
            lit("2")
        } else {
            lit("3")
        },
    ] + (match d.account {
        Some(a) => if a@ != d.username@ {
            seq![string_attr(1, a@), xs401_attr(25, a@)]
        } else {
            seq![Seq::<u8>::empty()]
        },
        None => seq![Seq::<u8>::empty()],
    }) + (match d.status {
        Err(e) => seq![
            string_attr(
                24,
                match d.message {
                    Some(m) => m@,
                    None => e.log_text(),
                },
            ),
            string_attr(18, e.reply_text()),
        ],
        Ok(_) => Seq::empty(),
    })
}

/// Whether two entries say the same of the request: when and from where it
/// came, the user, the address of the user's machine and the calling system.
pub open spec fn same_request(a: Datalog, b: Datalog) -> bool {
    a.time == b.time && a.src_ip == b.src_ip && a.username == b.username && a.clientip
        == b.clientip && a.callingsystem == b.callingsystem
}

/// The reason that a number of a script stands for: the reason of that
/// number, and the generic one for a number that no reason has.
pub open spec fn reason(n: i64) -> Error {
    if 0 <= n {
        Error::numbered(n as int)
    } else {
        Error::GENERIC
    }
}

/// What a script has written to the log.
pub enum Noted {
    Account(Seq<u8>),
    Status(Error),
}

/// What writing a value under a name of the log comes to: the account,
/// the reason, or the complaint that the script gets.
pub open spec fn assigned(key: Seq<u8>, value: ScriptValue) -> Result<Noted, Seq<u8>> {
    if key == lit("account") {
        match value {
            ScriptValue::Text(v) => Ok(Noted::Account(v@)),
            _ => Err(lit("log.account = val: must be a string")),
        }
    } else if key == lit("status") {
        match value {
            ScriptValue::Integer(n) => Ok(Noted::Status(reason(n))),
            _ => Err(lit("log.status = val: must be a datalog.enum")),
        }
    } else {
        Err(lit("log.") + key + lit(": unknown key"))
    }
}

impl Datalog {
    /// An entry that logs nothing: it stands for a tick of the clock.
    pub fn default() -> (r: Datalog)
        ensures
            r.time == Some(0u64),
            r.src_ip@ == lit("0.0.0.0"),
            r.username@.len() == 0,
            r.account is None && r.clientip is None && r.callingsystem is None && r.message
                is None,
            r.status is Ok,
    {
        Datalog {
            time: Some(0),
            src_ip: clone_bytes("0.0.0.0".as_bytes()),
            username: Vec::new(),
            account: None,
            clientip: None,
            callingsystem: None,
            status: Ok(()),
            message: None,
        }
    }

    /// Whether the entry logs nothing: its time is the epoch, its address
    /// is the unspecified one, and it names no user.
    pub fn is_empty(&self) -> (r: bool)
        ensures
            r == (self.time == Some(0u64) && (self.src_ip@ == lit("0.0.0.0") || self.src_ip@
                == lit("::")) && self.username@.len() == 0),
    {
        let epoch = match self.time {
            Some(t) => t == 0,
            None => false,
        };
        epoch && (bytes_eq(self.src_ip.as_slice(), "0.0.0.0".as_bytes()) || bytes_eq(
            self.src_ip.as_slice(),
            "::".as_bytes(),
        )) && self.username.len() == 0
    }

    /// The two lines of the log for this login: the request and the reply,
    /// each with commas between its fields.
    pub fn to_lines(&self) -> (r: (Vec<u8>, Vec<u8>))
        ensures
            r.0@ == join(request_fields(*self), 0x2c),
            r.1@ == join(reply_fields(*self), 0x2c),
    {
        let mut request: Vec<Vec<u8>> = Vec::new();
        let mut reply: Vec<Vec<u8>> = Vec::new();
        let time: u64 = match self.time {
            Some(t) => t,
            None => FALLBACK_TIME,
        };
        let mut ts: Vec<u8> = Vec::new();
        push_decimal(&mut ts, time);
        request.push(clone_bytes(ts.as_slice()));
        request.push(clone_bytes(self.src_ip.as_slice()));
        request.push(clone_bytes("1".as_bytes()));
        request.push(attr_string(1, self.username.as_slice()));
        request.push(clone_bytes("2:\"\"".as_bytes()));
        request.push(attr_item(4, self.src_ip.as_slice()));
        match &self.callingsystem {
            Some(s) => {
                request.push(attr_string(32, s.as_slice()));
            },
            None => {},
        }
        match &self.clientip {
            Some(ip) => {
                request.push(attr_string(31, ip.as_slice()));
            },
            None => {},
        }
        assert(views(request@) =~= request_fields(*self));
        reply.push(ts);
        reply.push(clone_bytes(self.src_ip.as_slice()));
        match self.status {
            Ok(_) => {
                reply.push(clone_bytes("2".as_bytes()));
            },
            Err(_) => {
                reply.push(clone_bytes("3".as_bytes()));
            },
        }
        let mut named = false;
        match &self.account {
            Some(a) => {
                if !bytes_eq(a.as_slice(), self.username.as_slice()) {
                    reply.push(attr_string(1, a.as_slice()));
                    reply.push(attr_xs401(25, a.as_slice()));
                    named = true;
                }
            },
            None => {},
        }
        if !named {
            reply.push(Vec::new());
        }
        match self.status {
            Err(e) => {
                match &self.message {
                    Some(m) => {
                        reply.push(attr_string(24, m.as_slice()));
                    },
                    None => {
                        reply.push(attr_string(24, e.as_log_message()));
                    },
                }
                reply.push(attr_string(18, e.as_reply()));
            },
            Ok(_) => {},
        }
        assert(views(reply@) =~= reply_fields(*self));
        (join_bytes(&request, 0x2c), join_bytes(&reply, 0x2c))
    }

    /// The entry for a login that a script decides: when and from where
    /// the request came, the user it names, the address of the user's
    /// machine if the caller has found one, and the calling system if the
    /// body names one as a text.
    pub fn for_login(time: Option<u64>, req: &Request, clientip: Option<Vec<u8>>) -> (r: Datalog)
        ensures
            r.time == time,
            r.src_ip@ == (match req.src_ip {
                Some(a) => a@,
                None => lit("0.0.0.0"),
            }),
            r.username@ == (match req.username {
                Some(u) => u@,
                None => Seq::empty(),
            }),
            r.clientip == clientip,
            opt_view(r.callingsystem) == req.extra_text_of(lit("callingsystem")),
            r.account is None && r.message is None && r.status is Ok,
    {
        Datalog {
            time,
            src_ip: match &req.src_ip {
                Some(a) => clone_bytes(a.as_slice()),
                None => clone_bytes("0.0.0.0".as_bytes()),
            },
            username: match &req.username {
                Some(u) => clone_bytes(u.as_slice()),
                None => Vec::new(),
            },
            account: None,
            clientip,
            callingsystem: req.extra_text("callingsystem".as_bytes()),
            status: Ok(()),
            message: None,
        }
    }

    /// Takes what a script writes to the log of a login. Under `account`
    /// a text is taken as the account; under `status` an integer as the
    /// number of the reason of a rejection. Anything else is refused with
    /// the complaint that the script gets, and changes nothing.
    pub fn assign(&mut self, key: &[u8], value: &ScriptValue) -> (r: Result<(), Vec<u8>>)
        ensures
            same_request(*old(self), *final(self)),
            final(self).message == old(self).message,
            match assigned(key@, *value) {
                Err(m) => (r matches Err(e) && e@ == m) && final(self).account == old(self).account
                    && final(self).status == old(self).status,
                Ok(Noted::Account(a)) => r is Ok && opt_view(final(self).account) == Some(a)
                    && final(self).status == old(self).status,
                Ok(Noted::Status(e)) => r is Ok && final(self).status == Err::<(), Error>(e)
                    && final(self).account == old(self).account,
            },
    {
        if bytes_eq(key, "account".as_bytes()) {
            match value {
                ScriptValue::Text(v) => {
                    self.account = Some(clone_bytes(v.as_slice()));
                    Ok(())
                },
                _ => Err(clone_bytes("log.account = val: must be a string".as_bytes())),
            }
        } else if bytes_eq(key, "status".as_bytes()) {
            match value {
                ScriptValue::Integer(n) => {
                    self.set_status(*n);
                    Ok(())
                },
                _ => Err(clone_bytes("log.status = val: must be a datalog.enum".as_bytes())),
            }
        } else {
            let mut m: Vec<u8> = Vec::new();
            push_all(&mut m, "log.".as_bytes());
            push_all(&mut m, key);
            push_all(&mut m, ": unknown key".as_bytes());
            Err(m)
        }
    }

    /// Sets the reason of a rejection from the number that a script gives.
    pub fn set_status(&mut self, n: i64)
        ensures
            final(self).status == Err::<(), Error>(reason(n)),
            same_request(*old(self), *final(self)),
            final(self).account == old(self).account,
            final(self).message == old(self).message,
    {
        let e = if n < 0 {
            Error::GENERIC
        } else if n > 28 {
            Error::GENERIC
        } else {
            Error::from_usize(n as usize)
        };
        self.status = Err(e);
    }

    /// Completes the entry once the script has decided a login. A failure
    /// of the script is logged as a generic rejection with the failure as
    /// its message. A login that the script has rejected, with a null
    /// value or a status from 400 on, is logged as a generic rejection
    /// unless the script has given a reason.
    pub fn finish(&mut self, outcome: &Result<(Json, u16), WnError>)
        ensures
            same_request(*old(self), *final(self)),
            final(self).account == old(self).account,
            match *outcome {
                Err(e) => final(self).status == Err::<(), Error>(Error::GENERIC) && (
                final(self).message matches Some(m) && m@ == e.debug_name()),
                Ok((value, code)) => final(self).message == old(self).message && final(self).status
                    == (if (value is Null || code >= 400) && old(self).status is Ok {
                    Err::<(), Error>(Error::GENERIC)
                } else {
                    old(self).status
                }),
            },
    {
        match outcome {
            Err(e) => {
                self.status = Err(Error::GENERIC);
                self.message = Some(clone_bytes(e.debug_bytes()));
            },
            Ok((value, code)) => {
                let null = match value {
                    Json::Null => true,
                    _ => false,
                };
                if null || *code >= 400 {
                    if self.status.is_ok() {
                        self.status = Err(Error::GENERIC);
                    }
                }
            },
        }
    }
}

} // verus!
