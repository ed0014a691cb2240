//! Username and password authentication.
//!
//! Credentials are lines of text:
//!
//! ```text
//! # comments and blank lines are ignored
//! alice:pbkdf2_sha256$200000$<salt_hex>$<hash_hex>
//! ```
//!
//! A password is stored as PBKDF2-HMAC-SHA256 with a random salt of its own.

use vstd::prelude::*;
use vstd::string::StringExecFns;
use crate::error::{MqttError, Result};
use crate::text;
use crate::text::{chars_are, chars_of, concat, push_decimal, split_chars, string_of};

verus! {

/// PBKDF2 iterations for a new password.
pub const DEFAULT_ITERATIONS: u32 = 200_000;

/// Length of a derived key in bytes.
pub const HASH_LEN: usize = 32;

/// Length of a salt in bytes.
pub const SALT_LEN: usize = 16;

/// Length beyond which a salt or password cannot be an input of the key
/// derivation.
pub const MAX_INPUT: u64 = 0x1000_0000_0000_0000;

/// Length in bytes of the longest key that can be derived: 2^32 - 1 blocks of 32
/// bytes.
pub const MAX_KEY: u64 = 0x1f_ffff_ffe0;

/// A stored password.
#[derive(Debug)]
pub struct Stored {
    iterations: u32,
    salt: Vec<u8>,
    hash: Vec<u8>,
}

/// What a stored password is.
pub struct StoredView {
    pub iterations: u32,
    pub salt: Seq<u8>,
    pub hash: Seq<u8>,
}

impl View for Stored {
    type V = StoredView;

    closed spec fn view(&self) -> StoredView {
        StoredView { iterations: self.iterations, salt: self.salt@, hash: self.hash@ }
    }
}

/// The key of `n` bytes that PBKDF2-HMAC-SHA256 derives.
pub uninterp spec fn pbkdf2_key(
    iterations: u32,
    salt: Seq<u8>,
    password: Seq<u8>,
    n: nat,
) -> Seq<u8>;

/// Derives a key of 32 bytes by `ring::pbkdf2::derive` with HMAC-SHA256. The
/// key depends on the arguments alone.
#[verifier::external_body]
fn derive_key(iterations: u32, salt: &[u8], password: &[u8]) -> (r: Vec<u8>)
    requires
        iterations > 0,
        salt@.len() <= MAX_INPUT,
        password@.len() <= MAX_INPUT,
    ensures
        r@ == pbkdf2_key(iterations, salt@, password@, 32),
        r@.len() == 32,
{
    let mut out = [0u8; 32];
    let rounds = std::num::NonZeroU32::new(iterations).unwrap();
    ring::pbkdf2::derive(ring::pbkdf2::PBKDF2_HMAC_SHA256, rounds, salt, password, &mut out);
    out.to_vec()
}

/// Verifies a key by `ring::pbkdf2::verify` with HMAC-SHA256: it succeeds
/// exactly when the key is not empty, is no longer than a key can be and is the
/// one that is derived at its length.
#[verifier::external_body]
fn verify_key(iterations: u32, salt: &[u8], password: &[u8], hash: &[u8]) -> (r: bool)
    requires
        iterations > 0,
        salt@.len() <= MAX_INPUT,
        password@.len() <= MAX_INPUT,
    ensures
        r == (0 < hash@.len() <= MAX_KEY && hash@ == pbkdf2_key(
            iterations,
            salt@,
            password@,
            hash@.len(),
        )),
{
    let rounds = std::num::NonZeroU32::new(iterations).unwrap();
    let alg = ring::pbkdf2::PBKDF2_HMAC_SHA256;
    ring::pbkdf2::verify(alg, rounds, salt, password, hash).is_ok()
}

/// Sixteen random bytes by `ring::rand::SecureRandom::fill` of
/// `ring::rand::SystemRandom`, or `None` where the system has none to give.
#[verifier::external_body]
fn random_salt() -> (r: Option<Vec<u8>>)
    ensures
        r matches Some(v) ==> v@.len() == 16,
{
    let mut salt = [0u8; 16];
    let rng = ring::rand::SystemRandom::new();
    ring::rand::SecureRandom::fill(&rng, &mut salt).ok().map(|_| salt.to_vec())
}

impl StoredView {
    /// Whether the key derivation takes these inputs and the key is one that it
    /// can derive.
    pub open spec fn usable(self, password: Seq<u8>) -> bool {
        &&& self.iterations > 0
        &&& self.salt.len() <= MAX_INPUT
        &&& password.len() <= MAX_INPUT
        &&& 0 < self.hash.len() <= MAX_KEY
    }

    /// Whether a password is the stored one.
    pub open spec fn accepts(self, password: Seq<u8>) -> bool {
        self.usable(password) && self.hash == pbkdf2_key(
            self.iterations,
            self.salt,
            password,
            self.hash.len(),
        )
    }
}

/// The value of a hexadecimal digit.
pub open spec fn hex_value(c: char) -> Option<u8> {
    if '0' <= c <= '9' {
        Some(((c as u32) - ('0' as u32)) as u8)
    } else if 'a' <= c <= 'f' {
        Some(((c as u32) - ('a' as u32) + 10) as u8)
    } else if 'A' <= c <= 'F' {
        Some(((c as u32) - ('A' as u32) + 10) as u8)
    } else {
        None
    }
}

/// Whether every character is a hexadecimal digit.
pub open spec fn all_hex(s: Seq<char>) -> bool {
    forall|i: int| 0 <= i < s.len() ==> hex_value(#[trigger] s[i]) is Some
}

/// The bytes that hexadecimal digits are, two each; there is at least one byte.
pub open spec fn hex_bytes(s: Seq<char>) -> Option<Seq<u8>> {
    if s.len() == 0 || s.len() % 2 != 0 || !all_hex(s) {
        None
    } else {
        Some(
            Seq::new(
                s.len() / 2,
                |i: int| (16 * hex_value(s[2 * i])->0 + hex_value(s[2 * i + 1])->0) as u8,
            ),
        )
    }
}

/// The lower-case hexadecimal digit of a number below sixteen.
pub open spec fn hex_char(d: u8) -> char {
    if d < 10 {
        (('0' as u32) + d) as char
    } else {
        (('a' as u32) + d - 10) as char
    }
}

/// Bytes as hexadecimal digits.
pub open spec fn hex_text(b: Seq<u8>) -> Seq<char>
    decreases b.len(),
{
    if b.len() == 0 {
        Seq::empty()
    } else {
        hex_text(b.drop_last()).push(hex_char(b.last() / 16)).push(hex_char(b.last() % 16))
    }
}

proof fn lemma_hex_text(b: Seq<u8>)
    ensures
        hex_text(b).len() == 2 * b.len(),
        forall|i: int|
            0 <= i < b.len() ==> hex_text(b)[2 * i] == hex_char(#[trigger] b[i] / 16) && hex_text(
                b,
            )[2 * i + 1] == hex_char(b[i] % 16),
        all_hex(hex_text(b)),
        !hex_text(b).contains('$'),
    decreases b.len(),
{
    if b.len() > 0 {
        let d = b.drop_last();
        lemma_hex_text(d);
        let t = hex_text(b);
        assert forall|i: int| 0 <= i < b.len() implies t[2 * i] == hex_char(#[trigger] b[i] / 16)
            && t[2 * i + 1] == hex_char(b[i] % 16) by {
            if i < d.len() {
                assert(d[i] == b[i]);
            }
        }
        assert forall|i: int| 0 <= i < t.len() implies hex_value(#[trigger] t[i]) is Some by {
            if i < hex_text(d).len() {
                assert(t[i] == hex_text(d)[i]);
            }
        }
    }
    let t = hex_text(b);
    if t.contains('$') {
        let i = choose|i: int| 0 <= i < t.len() && t[i] == '$';
        assert(hex_value(t[i]) is Some);
    }
}

/// Bytes read back from their hexadecimal digits.
pub proof fn hex_roundtrip(b: Seq<u8>)
    requires
        b.len() > 0,
    ensures
        hex_bytes(hex_text(b)) == Some(b),
{
    lemma_hex_text(b);
    let t = hex_text(b);
    let back = hex_bytes(t)->0;
    assert(back.len() == b.len());
    assert forall|i: int| 0 <= i < b.len() implies back[i] == b[i] by {
        assert(t[2 * i] == hex_char(b[i] / 16));
        assert(t[2 * i + 1] == hex_char(b[i] % 16));
    }
    assert(back =~= b);
}

fn hex_digit(c: char) -> (r: Option<u8>)
    ensures
        r == hex_value(c),
{
    let n: u32 = c as u32;
    if '0' <= c && c <= '9' {
        Some((n - 48) as u8)
    } else if 'a' <= c && c <= 'f' {
        Some((n - 87) as u8)
    } else if 'A' <= c && c <= 'F' {
        Some((n - 55) as u8)
    } else {
        None
    }
}

/// The bytes that hexadecimal digits are.
pub fn from_hex(s: &str) -> (r: Option<Vec<u8>>)
    ensures
        match r {
            Some(v) => hex_bytes(s@) == Some(v@),
            None => hex_bytes(s@) is None,
        },
{
    let c: Vec<char> = chars_of(s);
    if c.len() == 0 || c.len() % 2 != 0 {
        return None;
    }
    let mut out: Vec<u8> = Vec::new();
    let mut i: usize = 0;
    while i < c.len()
        invariant
            i <= c.len(),
            c@ == s@,
            c.len() % 2 == 0,
            c.len() > 0,
            i % 2 == 0,
            out@.len() * 2 == i,
            forall|j: int| 0 <= j < i ==> hex_value(#[trigger] s@[j]) is Some,
            forall|j: int|
                0 <= j < out@.len() ==> #[trigger] out@[j] == (16 * hex_value(s@[2 * j])->0
                    + hex_value(s@[2 * j + 1])->0) as u8,
        decreases c.len() - i,
    {
        match (hex_digit(c[i]), hex_digit(c[i + 1])) {
            (Some(hi), Some(lo)) => {
                assert(hi < 16 && lo < 16);
                out.push(16 * hi + lo);
            },
            _ => {
                assert(hex_value(s@[i as int]) is None || hex_value(s@[i + 1]) is None);
                return None;
            },
        }
        i = i + 2;
    }
    assert(out@ =~= hex_bytes(s@)->0);
    Some(out)
}

fn push_hex(s: &mut String, b: u8)
    ensures
        final(s)@ == old(s)@.push(hex_char(b / 16)).push(hex_char(b % 16)),
{
    let hi: u8 = b / 16;
    let lo: u8 = b % 16;
    s.push(
        if hi < 10 {
            (48 + hi) as char
        } else {
            (97 + (hi - 10)) as char
        },
    );
    s.push(
        if lo < 10 {
            (48 + lo) as char
        } else {
            (97 + (lo - 10)) as char
        },
    );
}

/// Bytes as hexadecimal digits.
pub fn to_hex(bytes: &[u8]) -> (r: String)
    ensures
        r@ == hex_text(bytes@),
{
    let mut s: String = String::new();
    let mut i: usize = 0;
    assert(bytes@.take(0) =~= Seq::empty());
    while i < bytes.len()
        invariant
            i <= bytes.len(),
            s@ == hex_text(bytes@.take(i as int)),
        decreases bytes.len() - i,
    {
        push_hex(&mut s, bytes[i]);
        assert(bytes@.take(i + 1).drop_last() =~= bytes@.take(i as int));
        i = i + 1;
    }
    assert(bytes@.take(bytes@.len() as int) =~= bytes@);
    s
}

/// The storable text of a salt and a key.
pub open spec fn hash_text(iterations: u32, salt: Seq<u8>, hash: Seq<u8>) -> Seq<char> {
    "pbkdf2_sha256$"@ + text::decimal(iterations as nat) + seq!['$'] + hex_text(salt) + seq!['$']
        + hex_text(hash)
}

/// The stored password of a line `username:pbkdf2_sha256$iterations$salt$hash`.
pub open spec fn entry_of(line: Seq<char>) -> Option<(Seq<char>, StoredView)> {
    match text::split_once(line, ':') {
        None => None,
        Some((user, rest)) => {
            let parts = text::split(rest, '$');
            if user.len() == 0 || parts.len() != 4 || parts[0] != "pbkdf2_sha256"@ {
                None
            } else {
                match (
                    text::parsed_number(parts[1], u32::MAX as nat),
                    hex_bytes(parts[2]),
                    hex_bytes(parts[3]),
                ) {
                    (Some(n), Some(salt), Some(hash)) => if n == 0 {
                        None
                    } else {
                        Some((user, StoredView { iterations: n as u32, salt, hash }))
                    },
                    _ => None,
                }
            }
        },
    }
}

/// What is wrong with a line of a password file.
pub open spec fn entry_fault(line: Seq<char>) -> Option<Seq<char>> {
    match text::split_once(line, ':') {
        None => Some("expected 'username:hash'"@),
        Some((user, rest)) => {
            let parts = text::split(rest, '$');
            let n = text::parsed_number(parts[1], u32::MAX as nat);
            if user.len() == 0 {
                Some("empty username"@)
            } else if parts.len() != 4 || parts[0] != "pbkdf2_sha256"@ {
                Some("unsupported password hash (expected pbkdf2_sha256$…)"@)
            } else if n is None || n == Some(0nat) {
                Some("iterations must be a positive integer"@)
            } else if hex_bytes(parts[2]) is None {
                Some("invalid salt hex"@)
            } else if hex_bytes(parts[3]) is None {
                Some("invalid hash hex"@)
            } else {
                None
            }
        },
    }
}

/// The line of a user and a stored password reads back.
pub proof fn entry_roundtrip(user: Seq<char>, iterations: u32, salt: Seq<u8>, hash: Seq<u8>)
    requires
        user.len() > 0,
        !user.contains(':'),
        iterations > 0,
        salt.len() > 0,
        hash.len() > 0,
    ensures
        entry_of(user + seq![':'] + hash_text(iterations, salt, hash)) == Some(
            (user, StoredView { iterations, salt, hash }),
        ),
{
    let rest = hash_text(iterations, salt, hash);
    let line = user + seq![':'] + rest;
    text::lemma_first_place_is(line, ':');
    assert forall|j: int| 0 <= j < user.len() implies #[trigger] line[j] != ':' by {
        assert(user.contains(user[j]));
    }
    text::lemma_first_place(line, ':', user.len() as int);
    assert(line.take(user.len() as int) =~= user);
    assert(line.skip(user.len() as int + 1) =~= rest);
    let scheme = "pbkdf2_sha256"@;
    let iters = text::decimal(iterations as nat);
    let st = hex_text(salt);
    let ht = hex_text(hash);
    reveal_strlit("pbkdf2_sha256");
    reveal_strlit("pbkdf2_sha256$");
    assert("pbkdf2_sha256$"@ =~= scheme + seq!['$']);
    lemma_hex_text(salt);
    lemma_hex_text(hash);
    text::decimal_roundtrip(iterations as nat, u32::MAX as nat);
    lemma_digits_plain(iters);
    assert(!scheme.contains('$')) by {
        assert forall|i: int| 0 <= i < scheme.len() implies scheme[i] != '$' by {}
    }
    let r3 = ht;
    let r2 = st + seq!['$'] + r3;
    let r1 = iters + seq!['$'] + r2;
    assert(rest =~= scheme + seq!['$'] + r1);
    text::lemma_split_concat(scheme, r1, '$');
    text::lemma_split_concat(iters, r2, '$');
    text::lemma_split_concat(st, r3, '$');
    text::lemma_split_plain(ht, '$');
    let parts = text::split(rest, '$');
    assert(parts =~= seq![scheme, iters, st, ht]);
    hex_roundtrip(salt);
    hex_roundtrip(hash);
}

proof fn lemma_digits_plain(s: Seq<char>)
    requires
        text::parsed_number(s, u32::MAX as nat) is Some,
    ensures
        !s.contains('$'),
{
    if s.contains('$') {
        let i = choose|i: int| 0 <= i < s.len() && s[i] == '$';
        let d = text::unsigned_part(s);
        if s[0] == '+' {
            assert(d[i - 1] == '$');
            assert(text::is_digit(d[i - 1]));
        } else {
            assert(text::is_digit(d[i]));
        }
    }
}

/// The line that is made for a user and a password accepts that password.
pub proof fn made_entry_accepts_its_password(
    user: Seq<char>,
    password: Seq<u8>,
    salt: Seq<u8>,
    hash: Seq<u8>,
)
    requires
        user.len() > 0,
        !user.contains(':'),
        salt.len() == SALT_LEN,
        hash.len() == HASH_LEN,
        hash == pbkdf2_key(DEFAULT_ITERATIONS, salt, password, HASH_LEN as nat),
        password.len() <= MAX_INPUT,
    ensures
        ({
            let line = user + seq![':'] + hash_text(DEFAULT_ITERATIONS, salt, hash);
            entry_of(line) matches Some((u, stored)) && u == user && stored.accepts(password)
        }),
{
    entry_roundtrip(user, DEFAULT_ITERATIONS, salt, hash);
}

/// Parses a line `username:pbkdf2_sha256$iterations$salt$hash`.
pub fn parse_entry(line: &str) -> (r: core::result::Result<(String, Stored), String>)
    ensures
        match r {
            Ok(p) => entry_of(line@) == Some((p.0@, p.1@)) && entry_fault(line@) is None,
            Err(m) => entry_of(line@) is None && entry_fault(line@) == Some(m@),
        },
{
    let all: Vec<char> = chars_of(line);
    let (user, rest): (Vec<char>, Vec<char>) = match text::split_once_chars(all.as_slice(), ':') {
        Some(p) => p,
        None => {
            return Err("expected 'username:hash'".to_owned());
        },
    };
    if user.len() == 0 {
        return Err("empty username".to_owned());
    }
    let parts: Vec<Vec<char>> = split_chars(rest.as_slice(), '$');
    let ghost ps = text::split(rest@, '$');
    if parts.len() != 4 {
        return Err("unsupported password hash (expected pbkdf2_sha256$…)".to_owned());
    }
    assert(parts@[0]@ == ps[0] && parts@[1]@ == ps[1] && parts@[2]@ == ps[2] && parts@[3]@
        == ps[3]);
    if !chars_are(parts[0].as_slice(), "pbkdf2_sha256") {
        return Err("unsupported password hash (expected pbkdf2_sha256$…)".to_owned());
    }
    let iterations: u32 = match text::parse_number(parts[1].as_slice(), u32::MAX as u64) {
        Some(n) => n as u32,
        None => {
            return Err("iterations must be a positive integer".to_owned());
        },
    };
    if iterations == 0 {
        return Err("iterations must be a positive integer".to_owned());
    }
    let salt: Vec<u8> = match from_hex(string_of(parts[2].as_slice()).as_str()) {
        Some(v) => v,
        None => {
            return Err("invalid salt hex".to_owned());
        },
    };
    let hash: Vec<u8> = match from_hex(string_of(parts[3].as_slice()).as_str()) {
        Some(v) => v,
        None => {
            return Err("invalid hash hex".to_owned());
        },
    };
    Ok((string_of(user.as_slice()), Stored { iterations, salt, hash }))
}

/// An in-memory credential store.
#[derive(Debug)]
pub struct Credentials {
    users: Vec<(String, Stored)>,
}

spec fn users_map(s: Seq<(String, Stored)>) -> Map<Seq<char>, StoredView>
    decreases s.len(),
{
    if s.len() == 0 {
        Map::empty()
    } else {
        users_map(s.drop_last()).insert(s.last().0@, s.last().1@)
    }
}

impl View for Credentials {
    type V = Map<Seq<char>, StoredView>;

    closed spec fn view(&self) -> Map<Seq<char>, StoredView> {
        users_map(self.users@)
    }
}

/// Whether a line is to be passed over: it is blank or a comment.
pub open spec fn is_comment(line: Seq<char>) -> bool {
    line.len() == 0 || line[0] == '#'
}

/// The users of the first lines of a password file, or `None` where one of
/// them is malformed. Of two entries for a user the later counts.
pub open spec fn users_of_lines(lines: Seq<Seq<char>>) -> Option<Map<Seq<char>, StoredView>>
    decreases lines.len(),
{
    if lines.len() == 0 {
        Some(Map::empty())
    } else {
        match users_of_lines(lines.drop_last()) {
            None => None,
            Some(before) => {
                let line = text::trim(lines.last());
                if is_comment(line) {
                    Some(before)
                } else {
                    match entry_of(line) {
                        Some((user, stored)) => Some(before.insert(user, stored)),
                        None => None,
                    }
                }
            },
        }
    }
}

/// The users of a password file.
pub open spec fn users_of(content: Seq<char>) -> Option<Map<Seq<char>, StoredView>> {
    users_of_lines(text::split(content, '\n'))
}

/// What is wrong with the lines of a password file, which `path` names.
pub open spec fn line_faults(path: Seq<char>) -> spec_fn(int, Seq<char>) -> Option<Seq<char>> {
    |i: int, line: Seq<char>|
        if is_comment(text::trim(line)) {
            None
        } else {
            match entry_fault(text::trim(line)) {
                Some(m) => Some(path + ":"@ + text::decimal((i + 1) as nat) + ": "@ + m),
                None => None,
            }
        }
}

/// What is wrong with the text of a password file, which `path` names.
pub open spec fn users_fault(path: Seq<char>, content: Seq<char>) -> Option<Seq<char>> {
    text::first_fault(text::split(content, '\n'), line_faults(path))
}

/// Whether a username and password are accepted.
pub open spec fn accepts(
    users: Map<Seq<char>, StoredView>,
    username: Seq<char>,
    password: Seq<u8>,
) -> bool {
    users.contains_key(username) && users[username].accepts(password)
}

proof fn lemma_users_prefix(lines: Seq<Seq<char>>, n: int)
    requires
        0 <= n <= lines.len(),
        users_of_lines(lines.take(n)) is None,
    ensures
        users_of_lines(lines) is None,
    decreases lines.len() - n,
{
    if n == lines.len() {
        assert(lines.take(n) =~= lines);
    } else {
        assert(lines.take(n + 1).drop_last() =~= lines.take(n));
        lemma_users_prefix(lines, n + 1);
    }
}

/// Whether a path goes up to a parent directory somewhere.
pub open spec fn goes_up(path: Seq<char>) -> bool {
    text::split(path, '/').contains(seq!['.', '.'])
}

/// Refuses a path that goes up to a parent directory.
pub fn check_path(path: &str) -> (r: Result<()>)
    ensures
        match r {
            Ok(_) => !goes_up(path@),
            Err(e) => goes_up(path@) && (e matches MqttError::Config(m) && m@ == "Invalid input: "@
                + path@),
        },
{
    let c: Vec<char> = chars_of(path);
    let parts: Vec<Vec<char>> = split_chars(c.as_slice(), '/');
    let ghost ps = text::split(path@, '/');
    let mut i: usize = 0;
    while i < parts.len()
        invariant
            i <= parts.len(),
            text::views(parts@) == ps,
            ps == text::split(path@, '/'),
            forall|j: int| 0 <= j < i ==> #[trigger] ps[j] != seq!['.', '.'],
        decreases parts.len() - i,
    {
        assert(parts@[i as int]@ == ps[i as int]);
        if parts[i].len() == 2 && parts[i][0] == '.' && parts[i][1] == '.' {
            assert(ps[i as int] =~= seq!['.', '.']);
            return Err(MqttError::Config(concat("Invalid input: ", path)));
        }
        i = i + 1;
    }
    Ok(())
}

impl Credentials {
    /// A store with no user.
    pub fn new() -> (r: Credentials)
        ensures
            r.wf(),
            r@ == Map::<Seq<char>, StoredView>::empty(),
    {
        Credentials { users: Vec::new() }
    }

    /// Whether no user is listed twice.
    pub closed spec fn wf(&self) -> bool {
        forall|i: int, j: int|
            0 <= i < j < self.users@.len() ==> (#[trigger] self.users@[i]).0@ != (
            #[trigger] self.users@[j]).0@
    }

    /// Sets the stored password of a user.
    fn insert(&mut self, user: String, stored: Stored)
        requires
            old(self).wf(),
        ensures
            final(self).wf(),
            final(self)@ == old(self)@.insert(user@, stored@),
    {
        let ghost before = self.users@;
        let mut i: usize = 0;
        while i < self.users.len()
            invariant
                i <= self.users.len(),
                self == old(self),
                before == self.users@,
                self.wf(),
                forall|j: int| 0 <= j < i ==> (#[trigger] before[j]).0@ != user@,
            decreases self.users.len() - i,
        {
            if text::str_eq(self.users[i].0.as_str(), user.as_str()) {
                let gone: (String, Stored) = self.users.remove(i);
                let ghost mid = self.users@;
                self.users.push((user, stored));
                proof {
                    assert forall|a: int, b: int| 0 <= a < b < self.users@.len() implies (
                    #[trigger] self.users@[a]).0@ != (#[trigger] self.users@[b]).0@ by {
                        let x = if a < i { a } else { a + 1 };
                        if b < mid.len() {
                            let y = if b < i { b } else { b + 1 };
                            assert(before[x].0@ != before[y].0@);
                        } else if x < i {
                            assert(before[x].0@ != before[i as int].0@);
                        } else {
                            assert(before[i as int].0@ != before[x].0@);
                        }
                    }
                    assert(self.users@.drop_last() =~= mid);
                    lemma_users_remove(before, i as int);
                    assert(self@ =~= old(self)@.insert(user@, stored@));
                }
                return;
            }
            i = i + 1;
        }
        self.users.push((user, stored));
        proof {
            assert forall|a: int, b: int| 0 <= a < b < self.users@.len() implies (
            #[trigger] self.users@[a]).0@ != (#[trigger] self.users@[b]).0@ by {
                if b < before.len() {
                    assert(before[a].0@ != before[b].0@);
                }
            }
            assert(self.users@.drop_last() =~= before);
        }
    }

    /// The users of the text of a password file; `path` names it for messages.
    pub fn parse(path: &str, content: &str) -> (r: Result<Credentials>)
        ensures
            match r {
                Ok(c) => c.wf() && users_of(content@) == Some(c@) && users_fault(
                    path@,
                    content@,
                ) is None,
                Err(e) => users_of(content@) is None && (e matches MqttError::Config(m)
                    && users_fault(path@, content@) == Some(m@)),
            },
    {
        let all: Vec<char> = chars_of(content);
        let lines: Vec<Vec<char>> = split_chars(all.as_slice(), '\n');
        let ghost ls = text::split(content@, '\n');
        let mut users: Credentials = Credentials::new();
        let mut i: usize = 0;
        assert(ls.take(0) =~= Seq::empty());
        while i < lines.len()
            invariant
                i <= lines.len(),
                text::views(lines@) == ls,
                ls == text::split(content@, '\n'),
                users.wf(),
                users_of_lines(ls.take(i as int)) == Some(users@),
                text::first_fault(ls.take(i as int), line_faults(path@)) is None,
            decreases lines.len() - i,
        {
            proof {
                text::lemma_first_fault(ls, line_faults(path@), i as int);
            }
            let ghost t = ls.take(i + 1);
            assert(t.drop_last() =~= ls.take(i as int));
            assert(t.last() == lines@[i as int]@);
            let line: Vec<char> = text::trim_chars(lines[i].as_slice());
            if line.len() > 0 && line[0] != '#' {
                match parse_entry(string_of(line.as_slice()).as_str()) {
                    Ok(p) => users.insert(p.0, p.1),
                    Err(e) => {
                        proof {
                            lemma_users_prefix(ls, i + 1);
                        }
                        let mut m: String = path.to_owned();
                        m.append(":");
                        push_decimal(&mut m, i as u64 + 1);
                        m.append(": ");
                        m.append(e.as_str());
                        return Err(MqttError::Config(m));
                    },
                }
            }
            i = i + 1;
        }
        assert(ls.take(ls.len() as int) =~= ls);
        Ok(users)
    }

    /// How many users there are.
    pub fn user_count(&self) -> (r: usize)
        requires
            self.wf(),
        ensures
            self@.dom().finite(),
            r == self@.len(),
    {
        proof {
            lemma_users_count(self.users@);
        }
        self.users.len()
    }

    /// Verifies a username and password.
    ///
    /// A key is derived even for a username that is not there, so that an
    /// unknown user takes as long as a wrong password.
    pub fn verify(&self, username: &str, password: &[u8]) -> (r: bool)
        ensures
            r == accepts(self@, username@, password@),
    {
        if password.len() as u64 > MAX_INPUT {
            return false;
        }
        let decoy: Stored = Stored {
            iterations: DEFAULT_ITERATIONS,
            salt: vec![0u8; 16],
            hash: vec![0u8; 32],
        };
        let (stored, known): (&Stored, bool) = match self.find(username) {
            Some(s) => (s, true),
            None => (&decoy, false),
        };
        if stored.iterations == 0 || stored.salt.len() as u64 > MAX_INPUT {
            return false;
        }
        let matched: bool = verify_key(
            stored.iterations,
            stored.salt.as_slice(),
            password,
            stored.hash.as_slice(),
        );
        matched && known
    }

    fn find(&self, username: &str) -> (r: Option<&Stored>)
        ensures
            match r {
                Some(s) => self@.contains_key(username@) && self@[username@] == s@,
                None => !self@.contains_key(username@),
            },
    {
        let mut n: usize = self.users.len();
        assert(self.users@.take(n as int) =~= self.users@);
        while n > 0
            invariant
                n <= self.users.len(),
                users_map(self.users@.take(n as int)).contains_key(username@)
                    == self@.contains_key(username@),
                self@.contains_key(username@) ==> users_map(
                    self.users@.take(n as int),
                )[username@] == self@[username@],
            decreases n,
        {
            assert(self.users@.take(n as int).drop_last() =~= self.users@.take(n - 1));
            n = n - 1;
            if text::str_eq(self.users[n].0.as_str(), username) {
                return Some(&self.users[n].1);
            }
        }
        None
    }
}

proof fn lemma_users_count(s: Seq<(String, Stored)>)
    requires
        forall|i: int, j: int|
            0 <= i < j < s.len() ==> (#[trigger] s[i]).0@ != (#[trigger] s[j]).0@,
    ensures
        users_map(s).dom().finite(),
        users_map(s).len() == s.len(),
        forall|k: Seq<char>| #[trigger]
            users_map(s).contains_key(k) ==> exists|i: int|
                0 <= i < s.len() && (#[trigger] s[i]).0@ == k,
    decreases s.len(),
{
    if s.len() > 0 {
        let d = s.drop_last();
        assert forall|i: int, j: int| 0 <= i < j < d.len() implies (#[trigger] d[i]).0@ != (
        #[trigger] d[j]).0@ by {
            assert(s[i].0@ != s[j].0@);
        }
        lemma_users_count(d);
        let last = s.last().0@;
        assert(!users_map(d).contains_key(last)) by {
            if users_map(d).contains_key(last) {
                let i = choose|i: int| 0 <= i < d.len() && (#[trigger] d[i]).0@ == last;
                assert(s[i].0@ != s[s.len() - 1].0@);
            }
        }
        assert(users_map(s).dom() =~= users_map(d).dom().insert(last));
        assert forall|k: Seq<char>| #[trigger] users_map(s).contains_key(k) implies exists|i: int|
            0 <= i < s.len() && (#[trigger] s[i]).0@ == k by {
            if k == last {
                assert(s[s.len() - 1].0@ == k);
            } else {
                assert(users_map(d).contains_key(k));
                let i = choose|i: int| 0 <= i < d.len() && (#[trigger] d[i]).0@ == k;
                assert(s[i].0@ == k);
            }
        }
    } else {
        assert(users_map(s).dom() =~= Set::empty());
    }
}

proof fn lemma_users_remove(s: Seq<(String, Stored)>, i: int)
    requires
        0 <= i < s.len(),
        forall|a: int, b: int|
            0 <= a < b < s.len() ==> (#[trigger] s[a]).0@ != (#[trigger] s[b]).0@,
    ensures
        users_map(s.remove(i)) == users_map(s).remove(s[i].0@),
    decreases s.len(),
{
    let d = s.drop_last();
    assert forall|a: int, b: int| 0 <= a < b < d.len() implies (#[trigger] d[a]).0@ != (
    #[trigger] d[b]).0@ by {
        assert(s[a].0@ != s[b].0@);
    }
    if i == s.len() - 1 {
        assert(s.remove(i) =~= d);
        lemma_users_count(d);
        assert(!users_map(d).contains_key(s[i].0@)) by {
            if users_map(d).contains_key(s[i].0@) {
                let j = choose|j: int| 0 <= j < d.len() && (#[trigger] d[j]).0@ == s[i].0@;
                assert(s[j].0@ != s[i].0@);
            }
        }
        assert(users_map(d) =~= users_map(s).remove(s[i].0@));
    } else {
        lemma_users_remove(d, i);
        assert(s.remove(i).drop_last() =~= d.remove(i));
        assert(s[i].0@ != s[s.len() - 1].0@);
        assert(users_map(s.remove(i)) =~= users_map(s).remove(s[i].0@));
    }
}

/// The storable text of a password with a given salt.
pub fn hash_with_salt(password: &[u8], salt: &[u8]) -> (r: String)
    requires
        password@.len() <= MAX_INPUT,
        salt@.len() <= MAX_INPUT,
    ensures
        r@ == hash_text(
            DEFAULT_ITERATIONS,
            salt@,
            pbkdf2_key(DEFAULT_ITERATIONS, salt@, password@, HASH_LEN as nat),
        ),
{
    let hash: Vec<u8> = derive_key(DEFAULT_ITERATIONS, salt, password);
    let mut s: String = String::from_str("pbkdf2_sha256$");
    push_decimal(&mut s, DEFAULT_ITERATIONS as u64);
    s.push('$');
    s.append(to_hex(salt).as_str());
    s.push('$');
    s.append(to_hex(hash.as_slice()).as_str());
    assert(s@ =~= hash_text(DEFAULT_ITERATIONS, salt@, hash@));
    s
}

/// The storable text of a password with a salt, where there is one.
pub fn hash_given(password: &[u8], salt: Option<Vec<u8>>) -> (r: Option<String>)
    requires
        password@.len() <= MAX_INPUT,
        salt matches Some(v) ==> v@.len() <= MAX_INPUT,
    ensures
        match salt {
            Some(v) => r matches Some(s) && s@ == hash_text(
                DEFAULT_ITERATIONS,
                v@,
                pbkdf2_key(DEFAULT_ITERATIONS, v@, password@, HASH_LEN as nat),
            ),
            None => r is None,
        },
{
    match salt {
        Some(v) => Some(hash_with_salt(password, v.as_slice())),
        None => None,
    }
}

/// Hashes a password into a storable text with a salt of its own. `None` where
/// the system has no random numbers to give.
pub fn hash_password(password: &[u8]) -> (r: Option<String>)
    requires
        password@.len() <= MAX_INPUT,
    ensures
        r matches Some(s) ==> exists|salt: Seq<u8>|
            salt.len() == SALT_LEN && s@ == #[trigger] hash_text(
                DEFAULT_ITERATIONS,
                salt,
                pbkdf2_key(DEFAULT_ITERATIONS, salt, password@, HASH_LEN as nat),
            ),
{
    hash_given(password, random_salt())
}

/// A whole line of a password file for a user and a password with a salt, where
/// there is one.
pub fn entry_given(username: &str, password: &[u8], salt: Option<Vec<u8>>) -> (r: Option<String>)
    requires
        password@.len() <= MAX_INPUT,
        salt matches Some(v) ==> v@.len() <= MAX_INPUT,
    ensures
        match salt {
            Some(v) => r matches Some(s) && s@ == username@ + seq![':'] + hash_text(
                DEFAULT_ITERATIONS,
                v@,
                pbkdf2_key(DEFAULT_ITERATIONS, v@, password@, HASH_LEN as nat),
            ),
            None => r is None,
        },
{
    match hash_given(password, salt) {
        Some(h) => {
            let mut s: String = username.to_owned();
            s.push(':');
            s.append(h.as_str());
            assert(s@ =~= username@ + seq![':'] + h@);
            Some(s)
        },
        None => None,
    }
}

/// A whole line of a password file for a user and a password, with a salt of
/// its own. `None` where the system has no random numbers to give.
pub fn format_entry(username: &str, password: &[u8]) -> (r: Option<String>)
    requires
        password@.len() <= MAX_INPUT,
    ensures
        r matches Some(s) ==> exists|salt: Seq<u8>|
            salt.len() == SALT_LEN && s@ == username@ + seq![':'] + #[trigger] hash_text(
                DEFAULT_ITERATIONS,
                salt,
                pbkdf2_key(DEFAULT_ITERATIONS, salt, password@, HASH_LEN as nat),
            ),
{
    entry_given(username, password, random_salt())
}

/// A username that is not listed is never accepted, and one that is listed only
/// with a password whose key, derived as its entry says, is the one in the
/// entry.
pub proof fn only_the_stored_key_is_accepted(
    users: Map<Seq<char>, StoredView>,
    username: Seq<char>,
    password: Seq<u8>,
)
    ensures
        !users.contains_key(username) ==> !accepts(users, username, password),
        accepts(users, username, password) ==> ({
            let e = users[username];
            e.hash.len() > 0 && e.hash == pbkdf2_key(e.iterations, e.salt, password, e.hash.len())
        }),
{
}

/// A line of a password file with an entry gives its user that entry, in place
/// of an earlier one, and changes no other user; a blank line or a comment
/// changes nothing; and any other line spoils the file.
pub proof fn each_line_sets_its_user(lines: Seq<Seq<char>>, line: Seq<char>, other: Seq<char>)
    requires
        users_of_lines(lines) is Some,
    ensures
        ({
            let before = users_of_lines(lines)->0;
            let after = users_of_lines(lines.push(line));
            let bare = text::trim(line);
            let skipped = bare.len() == 0 || bare[0] == '#';
            &&& skipped ==> after == Some(before)
            &&& !skipped && entry_of(bare) is None ==> after is None
            &&& !skipped && entry_of(bare) is Some ==> {
                let (user, stored) = entry_of(bare)->0;
                &&& after is Some
                &&& (after->0).contains_key(user)
                &&& (after->0)[user] == stored
                &&& other != user ==> ((after->0).contains_key(other) <==> before.contains_key(
                    other,
                ))
                &&& other != user && before.contains_key(other) ==> (after->0)[other]
                    == before[other]
            }
        }),
{
    assert(lines.push(line).drop_last() =~= lines);
}

} // verus!
