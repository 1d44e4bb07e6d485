//! The record codec: log records as self-delimiting, newline-terminated
//! text frames.
//!
//! A record is one of two tagged variants. `Put` binds a key to a value;
//! `Remove` retires a key. Each field of a record is written as its length
//! in decimal digits, a comma, and then the field's characters; the frame is
//! one tag character, the fields, and a terminating newline. Because every
//! field is length-prefixed, keys and values may contain any characters,
//! including newlines and commas, and the terminator stays unambiguous.
//!
//! The functions of this module come in pairs: a `spec` function that states
//! the format mathematically, and an executable function proved against it.
//! The central theorems are round-trip fidelity (parsing an encoded record
//! yields the record back) and parse locality (a successful parse is
//! unaffected by anything appended after the parsed frame), on which the
//! store's replay and append proofs rest.

use vstd::prelude::*;

verus! {

/// One record of the append-only log.
#[derive(Debug, Clone, PartialEq, Eq)]
pub enum LogEntry {
    /// The authoritative statement that `key` now maps to `value`.
    Put { key: String, value: String },
    /// The authoritative statement that the key is no longer present.
    Remove(String),
}

/// The mathematical form of a log record: its fields as character sequences.
pub enum LogEntryV {
    /// A key bound to a value.
    Put { key: Seq<char>, value: Seq<char> },
    /// A retired key.
    Remove(Seq<char>),
}

impl View for LogEntry {
    type V = LogEntryV;

    open spec fn view(&self) -> LogEntryV {
        match self {
            LogEntry::Put { key, value } => LogEntryV::Put { key: key@, value: value@ },
            LogEntry::Remove(key) => LogEntryV::Remove(key@),
        }
    }
}

// ---------------------------------------------------------------------------
// Decimal numerals
// ---------------------------------------------------------------------------

/// Is `c` one of the ten decimal digit characters?
pub open spec fn is_digit(c: char) -> bool {
    48 <= c as u32 && c as u32 <= 57
}

/// The numeric value of a digit character.
pub open spec fn digit_val(c: char) -> nat {
    (c as u32 - 48) as nat
}

/// The digit character for a value below ten.
pub open spec fn digit_char(d: nat) -> char {
    if d == 0 { '0' }
    else if d == 1 { '1' }
    else if d == 2 { '2' }
    else if d == 3 { '3' }
    else if d == 4 { '4' }
    else if d == 5 { '5' }
    else if d == 6 { '6' }
    else if d == 7 { '7' }
    else if d == 8 { '8' }
    else { '9' }
}

/// The decimal numeral of `n`, most significant digit first.
pub open spec fn dec_rep(n: nat) -> Seq<char>
    decreases n,
{
    if n < 10 {
        seq![digit_char(n)]
    } else {
        dec_rep(n / 10).push(digit_char(n % 10))
    }
}

proof fn lemma_digit_char_val(d: nat)
    requires
        d < 10,
    ensures
        is_digit(digit_char(d)),
        digit_val(digit_char(d)) == d,
{
}

/// Every character of a numeral is a digit, and a numeral is never empty.
pub proof fn lemma_dec_rep_digits(n: nat)
    ensures
        dec_rep(n).len() >= 1,
        forall|t: int| 0 <= t < dec_rep(n).len() ==> is_digit(#[trigger] dec_rep(n)[t]),
    decreases n,
{
    if n < 10 {
        lemma_digit_char_val(n);
    } else {
        lemma_dec_rep_digits(n / 10);
        lemma_digit_char_val(n % 10);
    }
}

/// The value of a digit run read onto an accumulator, most significant first.
pub open spec fn extend_val(acc: nat, ds: Seq<char>) -> nat
    decreases ds.len(),
{
    if ds.len() == 0 {
        acc
    } else {
        extend_val(acc * 10 + digit_val(ds[0]), ds.drop_first())
    }
}

/// Whether reading the digit run onto `acc` stays within `u64` at every step.
pub open spec fn digits_fit(acc: nat, ds: Seq<char>) -> bool
    decreases ds.len(),
{
    if ds.len() == 0 {
        true
    } else {
        acc * 10 + digit_val(ds[0]) <= u64::MAX && digits_fit(
            acc * 10 + digit_val(ds[0]),
            ds.drop_first(),
        )
    }
}

proof fn lemma_extend_val_push(acc: nat, ds: Seq<char>, d: char)
    ensures
        extend_val(acc, ds.push(d)) == extend_val(acc, ds) * 10 + digit_val(d),
    decreases ds.len(),
{
    let p = ds.push(d);
    if ds.len() == 0 {
        assert(p[0] == d);
        assert(p.drop_first() =~= Seq::<char>::empty());
        assert(extend_val(acc, p) == extend_val(acc * 10 + digit_val(d), p.drop_first()));
        assert(extend_val(acc * 10 + digit_val(d), p.drop_first()) == acc * 10 + digit_val(d));
    } else {
        assert(p[0] == ds[0]);
        assert(p.drop_first() =~= ds.drop_first().push(d));
        lemma_extend_val_push(acc * 10 + digit_val(ds[0]), ds.drop_first(), d);
        assert(extend_val(acc, p) == extend_val(acc * 10 + digit_val(p[0]), p.drop_first()));
    }
}

proof fn lemma_digits_fit_push(acc: nat, ds: Seq<char>, d: char)
    ensures
        digits_fit(acc, ds.push(d)) == (digits_fit(acc, ds) && extend_val(acc, ds) * 10
            + digit_val(d) <= u64::MAX),
    decreases ds.len(),
{
    let p = ds.push(d);
    if ds.len() == 0 {
        assert(p[0] == d);
        assert(p.drop_first() =~= Seq::<char>::empty());
        assert(digits_fit(acc, p) == (acc * 10 + digit_val(d) <= u64::MAX && digits_fit(
            acc * 10 + digit_val(d),
            p.drop_first(),
        )));
        assert(digits_fit(acc * 10 + digit_val(d), p.drop_first()));
    } else {
        assert(p[0] == ds[0]);
        assert(p.drop_first() =~= ds.drop_first().push(d));
        lemma_digits_fit_push(acc * 10 + digit_val(ds[0]), ds.drop_first(), d);
        assert(digits_fit(acc, p) == (acc * 10 + digit_val(p[0]) <= u64::MAX && digits_fit(
            acc * 10 + digit_val(p[0]),
            p.drop_first(),
        )));
    }
}

/// Reading back the numeral of `n` yields `n`, without overflowing `u64`.
pub proof fn lemma_dec_rep_val(n: nat)
    requires
        n <= u64::MAX,
    ensures
        extend_val(0, dec_rep(n)) == n,
        digits_fit(0, dec_rep(n)),
    decreases n,
{
    if n < 10 {
        lemma_digit_char_val(n);
        let ds = seq![digit_char(n)];
        assert(ds.drop_first() =~= Seq::<char>::empty());
        assert(extend_val(0, ds) == extend_val(digit_val(ds[0]), ds.drop_first()));
        assert(digits_fit(digit_val(ds[0]), ds.drop_first()));
    } else {
        lemma_dec_rep_val(n / 10);
        lemma_digit_char_val(n % 10);
        lemma_extend_val_push(0, dec_rep(n / 10), digit_char(n % 10));
        lemma_digits_fit_push(0, dec_rep(n / 10), digit_char(n % 10));
        assert(n / 10 * 10 + n % 10 == n);
    }
}

/// Read a digit run starting at `i`, the accumulated value so far in `acc`.
/// Stops at the first non-digit or at the end; rejects a value that would
/// not fit in `u64`.
pub open spec fn parse_num_rec(s: Seq<char>, i: int, acc: nat) -> Option<(nat, int)>
    decreases s.len() - i,
{
    if i < s.len() && is_digit(s[i]) {
        if acc * 10 + digit_val(s[i]) > u64::MAX {
            None
        } else {
            parse_num_rec(s, i + 1, acc * 10 + digit_val(s[i]))
        }
    } else {
        Some((acc, i))
    }
}

/// Read a decimal numeral at `i`: at least one digit, value fitting `u64`.
pub open spec fn parse_num_at(s: Seq<char>, i: int) -> Option<(nat, int)> {
    if 0 <= i < s.len() && is_digit(s[i]) {
        parse_num_rec(s, i, 0)
    } else {
        None
    }
}

proof fn lemma_parse_num_rec_bounds(s: Seq<char>, i: int, acc: nat)
    requires
        0 <= i <= s.len(),
        parse_num_rec(s, i, acc) is Some,
    ensures
        i <= parse_num_rec(s, i, acc)->Some_0.1 <= s.len(),
        acc <= parse_num_rec(s, i, acc)->Some_0.0,
    decreases s.len() - i,
{
    if i < s.len() && is_digit(s[i]) {
        lemma_parse_num_rec_bounds(s, i + 1, acc * 10 + digit_val(s[i]));
    }
}

/// A digit run whose characters stand in `s` at `i` is read back exactly,
/// provided the run ends at a non-digit or at the end of `s`.
proof fn lemma_parse_num_rec_run(s: Seq<char>, i: int, ds: Seq<char>, acc: nat)
    requires
        0 <= i,
        i + ds.len() <= s.len(),
        s.subrange(i, i + ds.len()) == ds,
        forall|t: int| 0 <= t < ds.len() ==> is_digit(#[trigger] ds[t]),
        i + ds.len() == s.len() || !is_digit(s[i + ds.len()]),
        digits_fit(acc, ds),
    ensures
        parse_num_rec(s, i, acc) == Some((extend_val(acc, ds), i + ds.len())),
    decreases ds.len(),
{
    if ds.len() == 0 {
    } else {
        assert(s[i] == ds[0]);
        assert(s.subrange(i + 1, i + ds.len()) =~= ds.drop_first());
        lemma_parse_num_rec_run(s, i + 1, ds.drop_first(), acc * 10 + digit_val(ds[0]));
    }
}

/// A successful digit run that stopped strictly inside `s` reads the same
/// after anything is appended to `s`.
proof fn lemma_parse_num_rec_local(s: Seq<char>, t: Seq<char>, i: int, acc: nat)
    requires
        0 <= i <= s.len(),
        parse_num_rec(s, i, acc) is Some,
        parse_num_rec(s, i, acc)->Some_0.1 < s.len(),
    ensures
        parse_num_rec(s + t, i, acc) == parse_num_rec(s, i, acc),
    decreases s.len() - i,
{
    if i < s.len() && is_digit(s[i]) {
        assert((s + t)[i] == s[i]);
        lemma_parse_num_rec_local(s, t, i + 1, acc * 10 + digit_val(s[i]));
    } else {
        assert((s + t)[i] == s[i]);
    }
}

// ---------------------------------------------------------------------------
// Length-prefixed fields
// ---------------------------------------------------------------------------

/// A field on the wire: the field's length in decimal, a comma, the field.
pub open spec fn enc_str(f: Seq<char>) -> Seq<char> {
    dec_rep(f.len()) + seq![','] + f
}

/// Read a length-prefixed field at `i`.
pub open spec fn parse_str_at(s: Seq<char>, i: int) -> Option<(Seq<char>, int)> {
    match parse_num_at(s, i) {
        None => None,
        Some((n, j)) => if j < s.len() && s[j] == ',' && j + 1 + n <= s.len() {
            Some((s.subrange(j + 1, j + 1 + n), j + 1 + n))
        } else {
            None
        },
    }
}

/// An encoded field standing in `s` at `i` is read back exactly.
pub proof fn lemma_parse_str_of_enc(s: Seq<char>, i: int, f: Seq<char>)
    requires
        f.len() <= u64::MAX,
        0 <= i,
        i + enc_str(f).len() <= s.len(),
        s.subrange(i, i + enc_str(f).len()) == enc_str(f),
    ensures
        parse_str_at(s, i) == Some((f, i + enc_str(f).len())),
{
    let ds = dec_rep(f.len());
    let l = ds.len() as int;
    let el = enc_str(f).len() as int;
    let sub = s.subrange(i, i + el);
    lemma_dec_rep_digits(f.len());
    lemma_dec_rep_val(f.len());
    assert(s.subrange(i, i + l) =~= sub.subrange(0, l));
    assert(sub.subrange(0, l) =~= ds);
    assert(s[i + l] == sub[l]);
    assert(sub[l] == ',');
    assert(!is_digit(','));
    lemma_parse_num_rec_run(s, i, ds, 0);
    assert(s[i] == sub[0]);
    assert(is_digit(ds[0]));
    assert(parse_num_at(s, i) == Some((f.len(), i + l)));
    assert(s.subrange(i + l + 1, i + l + 1 + f.len() as int) =~= sub.subrange(l + 1, el));
    assert(sub.subrange(l + 1, el) =~= f);
}

/// A successfully parsed field is unaffected by anything appended after `s`.
proof fn lemma_parse_str_local(s: Seq<char>, t: Seq<char>, i: int)
    requires
        parse_str_at(s, i) is Some,
    ensures
        parse_str_at(s + t, i) == parse_str_at(s, i),
        i < parse_str_at(s, i)->Some_0.1 <= s.len(),
{
    let (n, j) = parse_num_at(s, i)->Some_0;
    assert((s + t)[i] == s[i]);
    lemma_parse_num_rec_bounds(s, i, 0);
    lemma_parse_num_rec_local(s, t, i, 0);
    let (n2, j2) = parse_num_at(s + t, i)->Some_0;
    assert((s + t)[j] == s[j]);
    assert((s + t).subrange(j + 1, j + 1 + n) =~= s.subrange(j + 1, j + 1 + n));
}

// ---------------------------------------------------------------------------
// Whole records
// ---------------------------------------------------------------------------

/// The frame of one record: tag, length-prefixed fields, newline.
pub open spec fn enc_entry(e: LogEntryV) -> Seq<char> {
    match e {
        LogEntryV::Put { key, value } => seq!['S'] + enc_str(key) + enc_str(value) + seq!['\n'],
        LogEntryV::Remove(key) => seq!['R'] + enc_str(key) + seq!['\n'],
    }
}

/// Whether a record's fields have encodable lengths. Every record built from
/// executable strings satisfies this.
pub open spec fn entry_fits(e: LogEntryV) -> bool {
    match e {
        LogEntryV::Put { key, value } => key.len() <= u64::MAX && value.len() <= u64::MAX,
        LogEntryV::Remove(key) => key.len() <= u64::MAX,
    }
}

/// Read one record at `i`: the tag decides the variant, the fields follow,
/// and the frame must close with a newline.
pub open spec fn parse_entry_at(s: Seq<char>, i: int) -> Option<(LogEntryV, int)> {
    if 0 <= i < s.len() {
        if s[i] == 'S' {
            match parse_str_at(s, i + 1) {
                None => None,
                Some((k, j)) => match parse_str_at(s, j) {
                    None => None,
                    Some((v, j2)) => if j2 < s.len() && s[j2] == '\n' {
                        Some((LogEntryV::Put { key: k, value: v }, j2 + 1))
                    } else {
                        None
                    },
                },
            }
        } else if s[i] == 'R' {
            match parse_str_at(s, i + 1) {
                None => None,
                Some((k, j)) => if j < s.len() && s[j] == '\n' {
                    Some((LogEntryV::Remove(k), j + 1))
                } else {
                    None
                },
            }
        } else {
            None
        }
    } else {
        None
    }
}

/// Round trip at a position: an encoded record standing in `s` at `i` is
/// read back exactly, whatever stands before or after it.
pub proof fn lemma_parse_entry_of_enc(s: Seq<char>, i: int, e: LogEntryV)
    requires
        entry_fits(e),
        0 <= i,
        i + enc_entry(e).len() <= s.len(),
        s.subrange(i, i + enc_entry(e).len()) == enc_entry(e),
    ensures
        parse_entry_at(s, i) == Some((e, i + enc_entry(e).len())),
{
    let len = enc_entry(e).len() as int;
    let sub = s.subrange(i, i + len);
    match e {
        LogEntryV::Put { key, value } => {
            let lk = enc_str(key).len() as int;
            let lv = enc_str(value).len() as int;
            assert(s[i] == sub[0]);
            assert(sub[0] == 'S');
            assert(s.subrange(i + 1, i + 1 + lk) =~= sub.subrange(1, 1 + lk));
            assert(sub.subrange(1, 1 + lk) =~= enc_str(key));
            lemma_parse_str_of_enc(s, i + 1, key);
            assert(s.subrange(i + 1 + lk, i + 1 + lk + lv) =~= sub.subrange(1 + lk, 1 + lk + lv));
            assert(sub.subrange(1 + lk, 1 + lk + lv) =~= enc_str(value));
            lemma_parse_str_of_enc(s, i + 1 + lk, value);
            assert(s[i + 1 + lk + lv] == sub[1 + lk + lv]);
            assert(sub[1 + lk + lv] == '\n');
        },
        LogEntryV::Remove(key) => {
            let lk = enc_str(key).len() as int;
            assert(s[i] == sub[0]);
            assert(sub[0] == 'R');
            assert(s.subrange(i + 1, i + 1 + lk) =~= sub.subrange(1, 1 + lk));
            assert(sub.subrange(1, 1 + lk) =~= enc_str(key));
            lemma_parse_str_of_enc(s, i + 1, key);
            assert(s[i + 1 + lk] == sub[1 + lk]);
            assert(sub[1 + lk] == '\n');
        },
    }
}

/// Encode-then-decode of every record is the identity.
pub proof fn lemma_entry_round_trip(e: LogEntryV)
    requires
        entry_fits(e),
    ensures
        parse_entry_at(enc_entry(e), 0) == Some((e, enc_entry(e).len() as int)),
{
    assert(enc_entry(e).subrange(0, enc_entry(e).len() as int) =~= enc_entry(e));
    lemma_parse_entry_of_enc(enc_entry(e), 0, e);
}

/// Parse locality: a successful parse consumes a bounded frame and reads the
/// same after anything is appended to the log.
pub proof fn lemma_parse_entry_local(s: Seq<char>, t: Seq<char>, i: int)
    requires
        parse_entry_at(s, i) is Some,
    ensures
        parse_entry_at(s + t, i) == parse_entry_at(s, i),
        i < parse_entry_at(s, i)->Some_0.1 <= s.len(),
{
    assert((s + t)[i] == s[i]);
    if s[i] == 'S' {
        let (k, j) = parse_str_at(s, i + 1)->Some_0;
        lemma_parse_str_local(s, t, i + 1);
        let (v, j2) = parse_str_at(s, j)->Some_0;
        lemma_parse_str_local(s, t, j);
        assert((s + t)[j2] == s[j2]);
    } else {
        let (k, j) = parse_str_at(s, i + 1)->Some_0;
        lemma_parse_str_local(s, t, i + 1);
        assert((s + t)[j] == s[j]);
    }
}

// ---------------------------------------------------------------------------
// Executable encoder
// ---------------------------------------------------------------------------

fn digit_to_char(d: u64) -> (c: char)
    requires
        d < 10,
    ensures
        c == digit_char(d as nat),
{
    if d == 0 { '0' }
    else if d == 1 { '1' }
    else if d == 2 { '2' }
    else if d == 3 { '3' }
    else if d == 4 { '4' }
    else if d == 5 { '5' }
    else if d == 6 { '6' }
    else if d == 7 { '7' }
    else if d == 8 { '8' }
    else { '9' }
}

fn push_dec(out: &mut Vec<char>, n: u64)
    ensures
        final(out)@ == old(out)@ + dec_rep(n as nat),
    decreases n,
{
    if n < 10 {
        out.push(digit_to_char(n));
        assert(final(out)@ =~= old(out)@ + dec_rep(n as nat));
    } else {
        push_dec(out, n / 10);
        out.push(digit_to_char(n % 10));
        assert(final(out)@ =~= old(out)@ + dec_rep(n as nat));
    }
}

/// Append the characters of `f` to `out`.
fn push_chars(out: &mut Vec<char>, f: &str)
    ensures
        final(out)@ == old(out)@ + f@,
{
    let n = f.unicode_len();
    let mut i: usize = 0;
    while i < n
        invariant
            n == f@.len(),
            i <= n,
            out@ == old(out)@ + f@.subrange(0, i as int),
        decreases n - i,
    {
        out.push(f.get_char(i));
        assert(out@ =~= old(out)@ + f@.subrange(0, i + 1 as int));
        i = i + 1;
    }
    assert(f@.subrange(0, n as int) =~= f@);
}

pub(crate) fn push_str_field(out: &mut Vec<char>, f: &str)
    ensures
        final(out)@ == old(out)@ + enc_str(f@),
{
    let n = f.unicode_len();
    push_dec(out, n as u64);
    out.push(',');
    push_chars(out, f);
    assert(final(out)@ =~= old(out)@ + enc_str(f@));
}

/// Encode one record as its character frame.
pub fn encode_entry(e: &LogEntry) -> (out: Vec<char>)
    ensures
        out@ == enc_entry(e@),
{
    let mut out: Vec<char> = Vec::new();
    append_entry(&mut out, e);
    out
}

/// Append the frame of `e` to `log`, as the store's mutators do.
pub fn append_entry(log: &mut Vec<char>, e: &LogEntry)
    ensures
        final(log)@ == old(log)@ + enc_entry(e@),
{
    match e {
        LogEntry::Put { key, value } => {
            log.push('S');
            push_str_field(log, key.as_str());
            push_str_field(log, value.as_str());
            log.push('\n');
            assert(final(log)@ =~= old(log)@ + enc_entry(e@));
        },
        LogEntry::Remove(key) => {
            log.push('R');
            push_str_field(log, key.as_str());
            log.push('\n');
            assert(final(log)@ =~= old(log)@ + enc_entry(e@));
        },
    }
}

// ---------------------------------------------------------------------------
// Executable parser
// ---------------------------------------------------------------------------

/// Relies on `core::iter::Iterator::collect`: it builds a `String` out of
/// exactly the characters of the vector, in order, and a `String`'s view is
/// its sequence of characters.
#[verifier::external_body]
pub(crate) fn string_from_chars(v: &Vec<char>) -> (s: String)
    ensures
        s@ == v@,
{
    v.iter().collect()
}

fn is_digit_exec(c: char) -> (b: bool)
    ensures
        b == is_digit(c),
{
    let u = c as u32;
    48 <= u && u <= 57
}

fn parse_num(s: &Vec<char>, i: usize) -> (r: Option<(u64, usize)>)
    requires
        i <= s@.len(),
    ensures
        match r {
            Some((n, j)) => parse_num_at(s@, i as int) == Some((n as nat, j as int)) && i < j
                <= s@.len(),
            None => parse_num_at(s@, i as int) is None,
        },
{
    if i >= s.len() {
        return None;
    }
    if !is_digit_exec(s[i]) {
        return None;
    }
    let mut acc: u64 = 0;
    let mut j: usize = i;
    loop
        invariant
            i < s@.len(),
            i <= j <= s@.len(),
            parse_num_rec(s@, i as int, 0) == parse_num_rec(s@, j as int, acc as nat),
            is_digit(s@[i as int]),
        decreases s@.len() - j,
    {
        if j >= s.len() || !is_digit_exec(s[j]) {
            proof {
                lemma_parse_num_rec_bounds(s@, i as int, 0);
            }
            return Some((acc, j));
        }
        let d = (s[j] as u32 - 48) as u64;
        assert(d as nat == digit_val(s@[j as int]));
        match acc.checked_mul(10) {
            None => {
                return None;
            },
            Some(m) => {
                match m.checked_add(d) {
                    None => {
                        return None;
                    },
                    Some(a) => {
                        acc = a;
                    },
                }
            },
        }
        j = j + 1;
    }
}

pub(crate) fn parse_str_field(s: &Vec<char>, i: usize) -> (r: Option<(String, usize)>)
    requires
        i <= s@.len(),
    ensures
        match r {
            Some((f, j)) => parse_str_at(s@, i as int) == Some((f@, j as int)) && i < j
                <= s@.len(),
            None => parse_str_at(s@, i as int) is None,
        },
{
    match parse_num(s, i) {
        None => None,
        Some((n, j)) => {
            if j >= s.len() || s[j] != ',' {
                return None;
            }
            let remaining = s.len() - j - 1;
            if n > remaining as u64 {
                return None;
            }
            let len = n as usize;
            let end = j + 1 + len;
            let mut field: Vec<char> = Vec::new();
            let mut t: usize = 0;
            while t < len
                invariant
                    t <= len,
                    j + 1 + len == end <= s@.len(),
                    field@ == s@.subrange(j + 1 as int, j + 1 + t as int),
                decreases len - t,
            {
                field.push(s[j + 1 + t]);
                assert(field@ =~= s@.subrange(j + 1 as int, j + 1 + (t + 1) as int));
                t = t + 1;
            }
            let out = string_from_chars(&field);
            Some((out, end))
        },
    }
}

/// Read one record of the log at position `i`. Returns the record and the
/// position just after its frame, or `None` where no well-formed record
/// stands at `i`.
pub fn parse_entry(s: &Vec<char>, i: usize) -> (r: Option<(LogEntry, usize)>)
    requires
        i <= s@.len(),
    ensures
        match r {
            Some((e, j)) => parse_entry_at(s@, i as int) == Some((e@, j as int)) && i < j
                <= s@.len(),
            None => parse_entry_at(s@, i as int) is None,
        },
{
    if i >= s.len() {
        return None;
    }
    let tag = s[i];
    if tag == 'S' {
        match parse_str_field(s, i + 1) {
            None => None,
            Some((k, j)) => match parse_str_field(s, j) {
                None => None,
                Some((v, j2)) => {
                    if j2 < s.len() && s[j2] == '\n' {
                        Some((LogEntry::Put { key: k, value: v }, j2 + 1))
                    } else {
                        None
                    }
                },
            },
        }
    } else if tag == 'R' {
        match parse_str_field(s, i + 1) {
            None => None,
            Some((k, j)) => {
                if j < s.len() && s[j] == '\n' {
                    Some((LogEntry::Remove(k), j + 1))
                } else {
                    None
                }
            },
        }
    } else {
        None
    }
}

} // verus!
