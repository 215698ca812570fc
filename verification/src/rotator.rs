//! Log rotation policy: the strategies, when a file is due, how rotated
//! files are named and recognized, and which old files are removed.

use vstd::prelude::*;
use vstd::string::*;
use crate::text::{chars_of, decimal, digit_char, is_prefix, lemma_digit_code, push_char, push_chars, push_decimal, push_str};

verus! {

/// Rotation strategy.
#[derive(Debug, Clone, Copy, PartialEq, Eq, Structural)]
pub enum RotationStrategy {
    /// Rotate when the file reaches the size limit, in bytes
    SizeBased(u64),
    /// Rotate daily
    Daily,
    /// Rotate on the size limit or daily, whichever comes first
    Combined {
        /// Size limit in bytes
        size_limit: u64,
    },
}

/// Ten megabytes, the default size limit.
pub const DEFAULT_SIZE_LIMIT: u64 = 10485760;

impl Default for RotationStrategy {
    /// Size-based rotation at 10 MB.
    fn default() -> (r: Self)
        ensures
            r == RotationStrategy::SizeBased(DEFAULT_SIZE_LIMIT),
    {
        RotationStrategy::SizeBased(DEFAULT_SIZE_LIMIT)
    }
}

/// Whether a file of `file_len` bytes is due for rotation under strategy
/// `s`, `new_day` telling whether the day changed since the file was
/// opened.
pub open spec fn due(s: RotationStrategy, file_len: u64, new_day: bool) -> bool {
    match s {
        RotationStrategy::SizeBased(limit) => file_len >= limit,
        RotationStrategy::Daily => new_day,
        RotationStrategy::Combined { size_limit } => file_len >= size_limit || new_day,
    }
}

impl RotationStrategy {
    /// Whether a file of `file_len` bytes is due for rotation; `new_day`
    /// tells whether the day changed since the file was opened.
    pub fn is_due(&self, file_len: u64, new_day: bool) -> (r: bool)
        ensures
            r == due(*self, file_len, new_day),
    {
        match *self {
            RotationStrategy::SizeBased(limit) => file_len >= limit,
            RotationStrategy::Daily => new_day,
            RotationStrategy::Combined { size_limit } => file_len >= size_limit || new_day,
        }
    }
}

/// Rotator configuration.
#[derive(Debug, Clone, Copy, PartialEq, Eq, Structural)]
pub struct RotatorConfig {
    /// Rotation strategy
    pub strategy: RotationStrategy,
    /// Maximum number of rotated files to keep (0 keeps all)
    pub max_files: usize,
    /// Whether to compress rotated files
    pub compress_old_files: bool,
}

/// The default rotation: 10 MB files, ten kept, not compressed.
pub open spec fn default_rotation() -> RotatorConfig {
    RotatorConfig {
        strategy: RotationStrategy::SizeBased(DEFAULT_SIZE_LIMIT),
        max_files: 10,
        compress_old_files: false,
    }
}

impl Default for RotatorConfig {
    /// 10 MB files, ten kept, not compressed.
    fn default() -> (r: Self)
        ensures
            r == default_rotation(),
    {
        RotatorConfig {
            strategy: RotationStrategy::SizeBased(DEFAULT_SIZE_LIMIT),
            max_files: 10,
            compress_old_files: false,
        }
    }
}

/// `suf` ends `s`.
pub open spec fn is_suffix(suf: Seq<char>, s: Seq<char>) -> bool {
    suf.len() <= s.len() && s.skip(s.len() - suf.len()) == suf
}

/// The file name without the extension `ext` (and its dot), when it ends
/// with it; otherwise the name as it is.
pub open spec fn stem_of(name: Seq<char>, ext: Seq<char>) -> Seq<char> {
    let suffix = seq!['.'] + ext;
    if is_suffix(suffix, name) {
        name.take(name.len() - suffix.len())
    } else {
        name
    }
}

/// The name of the rotated file number `counter` of a log file named
/// `name` with extension `ext` (empty when it has none): `stem.N.ext`, or
/// `name.N` without an extension; the name itself for counter 0.
pub open spec fn rotated_name(name: Seq<char>, ext: Seq<char>, counter: nat) -> Seq<char> {
    if counter == 0 {
        name
    } else if ext.len() == 0 {
        name + seq!['.'] + decimal(counter)
    } else {
        stem_of(name, ext) + seq!['.'] + decimal(counter) + seq!['.'] + ext
    }
}

/// The name of rotated file number `counter` (0 for the current file) of
/// the log file `name`, whose extension (without the dot) is `ext`.
pub fn generate_filename(name: &str, ext: &str, counter: u64) -> (r: String)
    ensures
        r@ == rotated_name(name@, ext@, counter as nat),
{
    if counter == 0 {
        return String::from_str(name);
    }
    let nc = chars_of(name);
    let ec = chars_of(ext);
    let mut s = String::new();
    if ec.len() == 0 {
        push_str(&mut s, name);
        push_char(&mut s, '.');
        push_decimal(&mut s, counter);
        assert(s@ =~= rotated_name(name@, ext@, counter as nat));
    } else {
        let mut dot_ext: Vec<char> = Vec::new();
        dot_ext.push('.');
        append_chars(&mut dot_ext, &ec);
        let stem_len = if ends_with(&nc, &dot_ext) {
            nc.len() - dot_ext.len()
        } else {
            nc.len()
        };
        push_chars(&mut s, &nc, 0, stem_len);
        push_char(&mut s, '.');
        push_decimal(&mut s, counter);
        push_char(&mut s, '.');
        push_str(&mut s, ext);
        assert(nc@.subrange(0, stem_len as int) =~= stem_of(name@, ext@));
        assert(s@ =~= nc@.subrange(0, stem_len as int) + seq!['.'] + decimal(counter as nat) + seq![
            '.',
        ] + ext@);
        assert(s@ =~= rotated_name(name@, ext@, counter as nat));
    }
    s
}

/// Appends the characters of `b` to `a`.
fn append_chars(a: &mut Vec<char>, b: &Vec<char>)
    ensures
        final(a)@ == old(a)@ + b@,
{
    let mut q: usize = 0;
    while q < b.len()
        invariant
            q <= b@.len(),
            a@ == old(a)@ + b@.take(q as int),
        decreases b@.len() - q,
    {
        a.push(b[q]);
        assert(b@.take(q + 1) =~= b@.take(q as int).push(b@[q as int]));
        assert(a@ =~= old(a)@ + b@.take(q + 1));
        q = q + 1;
    }
    assert(b@.take(b@.len() as int) =~= b@);
}

/// Whether `suf` ends `s`.
fn ends_with(s: &Vec<char>, suf: &Vec<char>) -> (r: bool)
    ensures
        r == (suf@.len() <= s@.len() && s@.skip(s@.len() - suf@.len()) == suf@),
{
    if suf.len() > s.len() {
        return false;
    }
    let mut k: usize = 0;
    let n = s.len();
    let off = n - suf.len();
    while k < suf.len()
        invariant
            off + suf@.len() == n,
            n == s@.len(),
            k <= suf@.len(),
            forall|j: int| 0 <= j < k ==> s@[off + j] == suf@[j],
        decreases suf@.len() - k,
    {
        if s[off + k] != suf[k] {
            assert(s@.skip(off as int)[k as int] != suf@[k as int]);
            return false;
        }
        k = k + 1;
    }
    assert(s@.skip(off as int) =~= suf@);
    true
}

/// All characters of `d` are ASCII digits.
pub open spec fn all_digits(d: Seq<char>) -> bool {
    forall|i: int| 0 <= i < d.len() ==> '0' <= #[trigger] d[i] && d[i] <= '9'
}

/// The number written by the decimal digits `d`.
pub open spec fn digits_value(d: Seq<char>) -> nat
    decreases d.len(),
{
    if d.len() == 0 {
        0
    } else {
        digits_value(d.drop_last()) * 10 + ((d.last() as u32) - 48) as nat
    }
}

/// The `u64` that std's `str::parse::<u64>` reads from `s`: an optional
/// `+`, then one or more ASCII digits, of a value that fits in 64 bits.
pub open spec fn parse_u64(s: Seq<char>) -> Option<u64> {
    let d = if s.len() > 0 && s[0] == '+' {
        s.skip(1)
    } else {
        s
    };
    if d.len() > 0 && all_digits(d) && digits_value(d) <= u64::MAX {
        Some(digits_value(d) as u64)
    } else {
        None
    }
}

/// A prefix of a run of digits never has a larger value.
proof fn lemma_digits_prefix(d: Seq<char>, k: int)
    requires
        0 <= k <= d.len(),
        all_digits(d),
    ensures
        digits_value(d.take(k)) <= digits_value(d),
    decreases d.len() - k,
{
    if k < d.len() {
        assert(d.drop_last().take(k) =~= d.take(k));
        assert(all_digits(d.drop_last()));
        lemma_digits_prefix(d.drop_last(), k);
    } else {
        assert(d.take(k) =~= d);
    }
}

/// Reads a `u64` from `chars[from..to]` as std's `parse::<u64>` does.
fn parse_u64_at(chars: &Vec<char>, from: usize, to: usize) -> (r: Option<u64>)
    requires
        from <= to <= chars@.len(),
    ensures
        r == parse_u64(chars@.subrange(from as int, to as int)),
{
    let ghost s = chars@.subrange(from as int, to as int);
    let mut i = from;
    if i < to && chars[i] == '+' {
        i = i + 1;
    }
    let start = i;
    let ghost d = chars@.subrange(start as int, to as int);
    assert(d =~= (if s.len() > 0 && s[0] == '+' {
        s.skip(1)
    } else {
        s
    }));
    if start == to {
        return None;
    }
    let mut v: u64 = 0;
    assert(d.take(0) =~= Seq::<char>::empty());
    while i < to
        invariant
            start <= i <= to <= chars@.len(),
            d == chars@.subrange(start as int, to as int),
            s == chars@.subrange(from as int, to as int),
            d == (if s.len() > 0 && s[0] == '+' {
                s.skip(1)
            } else {
                s
            }),
            all_digits(d.take(i - start)),
            v == digits_value(d.take(i - start)),
        decreases to - i,
    {
        let c = chars[i];
        if c < '0' || c > '9' {
            assert(d[i - start] == c);
            assert(!all_digits(d));
            return None;
        }
        let digit: u64 = (c as u32 - 48) as u64;
        assert(d.take(i - start + 1).drop_last() =~= d.take(i - start));
        assert(d.take(i - start + 1).last() == c);
        assert(all_digits(d.take(i - start + 1)));
        assert(digits_value(d.take(i - start + 1)) == v * 10 + digit);
        match v.checked_mul(10) {
            None => {
                proof {
                    if all_digits(d) {
                        lemma_digits_prefix(d, i - start + 1);
                    }
                }
                return None;
            },
            Some(t) => match t.checked_add(digit) {
                None => {
                    proof {
                        if all_digits(d) {
                            lemma_digits_prefix(d, i - start + 1);
                        }
                    }
                    return None;
                },
                Some(n) => {
                    v = n;
                },
            },
        }
        i = i + 1;
    }
    assert(d.take(to - start) =~= d);
    Some(v)
}

/// The index of the last occurrence of `c` in `s`, if any.
pub open spec fn last_index(s: Seq<char>, c: char) -> Option<int>
    decreases s.len(),
{
    if s.len() == 0 {
        None
    } else if s.last() == c {
        Some(s.len() - 1)
    } else {
        last_index(s.drop_last(), c)
    }
}

/// The counter that `rest` (what follows `stem.` in a file name) gives,
/// for a log file of extension `ext` (empty when it has none): `rest` must
/// be `N` (no extension) or `N.ext`, `N` a `u64`.
pub open spec fn counter_of(rest: Seq<char>, ext: Seq<char>) -> Option<u64> {
    if ext.len() == 0 {
        parse_u64(rest)
    } else {
        match last_index(rest, '.') {
            None => None,
            Some(d) => if rest.skip(d) == seq!['.'] + ext {
                parse_u64(rest.take(d))
            } else {
                None
            },
        }
    }
}

/// The `.gz` suffix of compressed files.
pub open spec fn gz_suffix() -> Seq<char> {
    seq!['.', 'g', 'z']
}

/// The number of a rotated log file named `file_name`, for the log file of
/// stem `stem` and extension `ext` (empty when it has none): the name must
/// be `stem.N` (no extension) or `stem.N.ext`, `N` a `u64`, or one of these
/// followed by `.gz` (a compressed rotated file); otherwise `None`.
pub open spec fn rotated_index_of(file_name: Seq<char>, stem: Seq<char>, ext: Seq<char>) -> Option<
    u64,
> {
    let pre = stem + seq!['.'];
    if !is_prefix(pre, file_name) {
        None
    } else {
        let rest = file_name.skip(pre.len() as int);
        match counter_of(rest, ext) {
            Some(k) => Some(k),
            None => if is_suffix(gz_suffix(), rest) {
                counter_of(rest.take(rest.len() - 3), ext)
            } else {
                None
            },
        }
    }
}

proof fn lemma_last_index(s: Seq<char>, c: char)
    ensures
        match last_index(s, c) {
            Some(i) => 0 <= i < s.len() && s[i] == c && forall|j: int| i < j < s.len() ==> s[j] != c,
            None => forall|j: int| 0 <= j < s.len() ==> s[j] != c,
        },
    decreases s.len(),
{
    if s.len() > 0 && s.last() != c {
        let d = s.drop_last();
        lemma_last_index(d, c);
        assert forall|j: int| 0 <= j < s.len() - 1 implies s[j] == d[j] by {}
    }
}

proof fn lemma_last_index_at(s: Seq<char>, c: char, i: int)
    requires
        0 <= i < s.len(),
        s[i] == c,
        forall|j: int| i < j < s.len() ==> s[j] != c,
    ensures
        last_index(s, c) == Some(i),
    decreases s.len(),
{
    if s.last() != c {
        lemma_last_index_at(s.drop_last(), c, i);
    }
}

proof fn lemma_last_index_none(s: Seq<char>, c: char)
    requires
        forall|j: int| 0 <= j < s.len() ==> s[j] != c,
    ensures
        last_index(s, c) is None,
    decreases s.len(),
{
    if s.len() > 0 {
        lemma_last_index_none(s.drop_last(), c);
    }
}

/// The decimal digits of a number read back as that number.
proof fn lemma_decimal_digits(n: nat)
    ensures
        decimal(n).len() >= 1,
        all_digits(decimal(n)),
        digits_value(decimal(n)) == n,
    decreases n,
{
    if n >= 10 {
        lemma_decimal_digits(n / 10);
        let d = decimal(n);
        assert(d == decimal(n / 10).push(digit_char(n % 10)));
        assert(d.drop_last() =~= decimal(n / 10));
        lemma_digit_code(n % 10);
        assert(d.last() == digit_char(n % 10));
        assert(((d.last() as u32) - 48) as nat == n % 10);
        assert(digits_value(d) == digits_value(d.drop_last()) * 10 + ((d.last() as u32) - 48) as nat);
        assert(n == 10 * (n / 10) + n % 10) by (nonlinear_arith);
        assert forall|i: int| 0 <= i < d.len() implies '0' <= #[trigger] d[i] && d[i] <= '9' by {
            if i < d.len() - 1 {
                assert(d[i] == decimal(n / 10)[i]);
            }
        }
    } else {
        lemma_digit_code(n);
        assert(decimal(n) == seq![digit_char(n)]);
        let d = decimal(n);
        assert(d.drop_last() =~= Seq::<char>::empty());
        assert(d.last() == digit_char(n));
        assert(digits_value(d) == digits_value(d.drop_last()) * 10 + ((d.last() as u32) - 48) as nat);
    }
}

/// A counter written in decimal is read back by `parse_u64`.
proof fn lemma_parse_decimal(k: u64)
    ensures
        parse_u64(decimal(k as nat)) == Some(k),
{
    lemma_decimal_digits(k as nat);
    let d = decimal(k as nat);
    assert('0' <= d[0] && d[0] <= '9');
}

/// The current log file (counter 0) is never taken for one of its rotated
/// files, so that cleanup never removes it.
pub proof fn law_current_file_not_rotated(name: Seq<char>, ext: Seq<char>)
    ensures
        rotated_index_of(rotated_name(name, ext, 0), stem_of(name, ext), ext) is None,
{
    let stem = stem_of(name, ext);
    let pre = stem + seq!['.'];
    let suffix = seq!['.'] + ext;
    assert(rotated_name(name, ext, 0) == name);
    if is_prefix(pre, name) {
        assert(is_suffix(suffix, name));
        let rest = name.skip(pre.len() as int);
        assert(rest.len() == ext.len());
        lemma_last_index(rest, '.');
        if is_suffix(gz_suffix(), rest) {
            lemma_last_index(rest.take(rest.len() - 3), '.');
        }
    }
}

/// The name of rotated file number `k` gives `k` back, for an extension
/// without a dot (as a file extension is) and, where there is none, a name
/// that does not end with a dot.
pub proof fn law_rotated_name_roundtrip(name: Seq<char>, ext: Seq<char>, k: u64)
    requires
        k > 0,
        forall|j: int| 0 <= j < ext.len() ==> ext[j] != '.',
        ext.len() == 0 ==> !is_suffix(seq!['.'], name),
    ensures
        rotated_index_of(rotated_name(name, ext, k as nat), stem_of(name, ext), ext) == Some(k),
{
    let stem = stem_of(name, ext);
    let dec = decimal(k as nat);
    let full = rotated_name(name, ext, k as nat);
    let pre = stem + seq!['.'];
    lemma_parse_decimal(k);
    lemma_decimal_digits(k as nat);
    if ext.len() == 0 {
        assert(stem == name);
        assert(full =~= pre + dec);
        assert(full.take(pre.len() as int) =~= pre);
        assert(full.skip(pre.len() as int) =~= dec);
    } else {
        let rest = dec + seq!['.'] + ext;
        assert(full =~= pre + rest);
        assert(full.take(pre.len() as int) =~= pre);
        assert(full.skip(pre.len() as int) =~= rest);
        lemma_counter_of_rotated(ext, k);
    }
}

/// What follows `stem.` in the name of rotated file number `k` gives `k`.
proof fn lemma_counter_of_rotated(ext: Seq<char>, k: u64)
    requires
        ext.len() > 0,
        forall|j: int| 0 <= j < ext.len() ==> ext[j] != '.',
    ensures
        counter_of(decimal(k as nat) + seq!['.'] + ext, ext) == Some(k),
{
    let dec = decimal(k as nat);
    let rest = dec + seq!['.'] + ext;
    lemma_parse_decimal(k);
    lemma_decimal_digits(k as nat);
    assert forall|j: int| dec.len() < j < rest.len() implies rest[j] != '.' by {
        assert(rest[j] == ext[j - dec.len() - 1]);
    }
    lemma_last_index_at(rest, '.', dec.len() as int);
    assert(rest.skip(dec.len() as int) =~= seq!['.'] + ext);
    assert(rest.take(dec.len() as int) =~= dec);
}

/// The number of the rotated file `file_name` of the log file of stem
/// `stem` and extension `ext` (empty when none), compressed (`.gz`) or not,
/// or `None` when the name is not that of one of its rotated files.
pub fn rotated_index(file_name: &str, stem: &str, ext: &str) -> (r: Option<u64>)
    ensures
        r == rotated_index_of(file_name@, stem@, ext@),
{
    let fc = chars_of(file_name);
    let mut pre = chars_of(stem);
    pre.push('.');
    assert(pre@ =~= stem@ + seq!['.']);
    let plen = pre.len();
    if plen > fc.len() || !crate::text::matches_at(&fc, 0, &pre) {
        proof {
            if is_prefix(pre@, fc@) {
                assert(fc@.subrange(0, plen as int) =~= fc@.take(plen as int));
            }
        }
        return None;
    }
    assert(fc@.subrange(0, plen as int) =~= fc@.take(plen as int));
    let ghost rest = fc@.skip(plen as int);
    let n = fc.len();
    let ec = chars_of(ext);
    assert(fc@.subrange(plen as int, n as int) =~= rest);
    match counter_in(&fc, plen, n, &ec) {
        Some(k) => Some(k),
        None => {
            let mut gz: Vec<char> = Vec::new();
            gz.push('.');
            gz.push('g');
            gz.push('z');
            assert(gz@ =~= gz_suffix());
            if n - plen >= 3 && ends_with(&fc, &gz) {
                proof {
                    assert(rest.skip(rest.len() - 3) =~= fc@.skip(n - 3));
                    assert(rest.take(rest.len() - 3) =~= fc@.subrange(plen as int, n - 3));
                }
                counter_in(&fc, plen, n - 3, &ec)
            } else {
                proof {
                    if is_suffix(gz_suffix(), rest) {
                        assert(rest.skip(rest.len() - 3) =~= fc@.skip(n - 3));
                    }
                }
                None
            }
        },
    }
}

/// The counter of `chars[from..to]`, as `counter_of` reads it.
fn counter_in(fc: &Vec<char>, from: usize, to: usize, ec: &Vec<char>) -> (r: Option<u64>)
    requires
        from <= to <= fc@.len(),
    ensures
        r == counter_of(fc@.subrange(from as int, to as int), ec@),
{
    let ghost rest = fc@.subrange(from as int, to as int);
    if ec.len() == 0 {
        return parse_u64_at(fc, from, to);
    }
    // the last '.' of the range
    let mut k = to;
    while k > from && fc[k - 1] != '.'
        invariant
            from <= k <= to <= fc@.len(),
            forall|j: int| k <= j < to ==> fc@[j] != '.',
        decreases k,
    {
        k = k - 1;
    }
    if k == from {
        proof {
            assert forall|j: int| 0 <= j < rest.len() implies rest[j] != '.' by {
                assert(rest[j] == fc@[from + j]);
            }
            lemma_last_index_none(rest, '.');
        }
        return None;
    }
    let dot = k - 1;
    proof {
        assert(rest[dot - from] == '.');
        assert forall|j: int| dot - from < j < rest.len() implies rest[j] != '.' by {
            assert(rest[j] == fc@[from + j]);
        }
        lemma_last_index_at(rest, '.', dot - from);
    }
    let mut tail = Vec::new();
    tail.push('.');
    append_chars(&mut tail, ec);
    let tail_len = to - dot;
    let same = tail.len() == tail_len && crate::text::matches_at(fc, dot, &tail);
    assert(rest.skip(dot - from) =~= fc@.subrange(dot as int, to as int));
    proof {
        if tail@.len() == tail_len {
            assert(fc@.subrange(dot as int, dot + tail@.len()) =~= fc@.subrange(
                dot as int,
                to as int,
            ));
        }
    }
    if !same {
        return None;
    }
    assert(rest.take(dot - from) =~= fc@.subrange(from as int, dot as int));
    parse_u64_at(fc, from, dot)
}

/// File `j` comes before file `i` once the numbers are sorted from the
/// highest down, equal numbers keeping their order.
pub open spec fn ahead(ns: Seq<u64>, j: int, i: int) -> bool {
    ns[j] > ns[i] || (ns[j] == ns[i] && j < i)
}

/// How many of the first `k` files come before file `i`.
pub open spec fn count_ahead(ns: Seq<u64>, i: int, k: int) -> nat
    decreases k,
{
    if k <= 0 {
        0
    } else {
        count_ahead(ns, i, k - 1) + if ahead(ns, k - 1, i) {
            1nat
        } else {
            0nat
        }
    }
}

/// The position of file `i` once the files are sorted by number from the
/// highest down, a stable sort.
pub open spec fn sorted_position(ns: Seq<u64>, i: int) -> nat {
    count_ahead(ns, i, ns.len() as int)
}

/// Which of the rotated files, numbered `numbers`, are removed so that at
/// most `max_files` remain: those past the first `max_files` once sorted
/// from the highest number down (equal numbers keep their order); none
/// when `max_files` is 0.
pub fn files_to_remove(numbers: &Vec<u64>, max_files: usize) -> (r: Vec<bool>)
    ensures
        r@.len() == numbers@.len(),
        forall|i: int|
            0 <= i < numbers@.len() ==> #[trigger] r@[i] == (max_files > 0 && sorted_position(
                numbers@,
                i,
            ) >= max_files),
{
    let ghost ns = numbers@;
    let mut r: Vec<bool> = Vec::new();
    let n = numbers.len();
    let mut i: usize = 0;
    while i < n
        invariant
            i <= n == ns.len(),
            ns == numbers@,
            r@.len() == i,
            forall|x: int|
                0 <= x < i ==> #[trigger] r@[x] == (max_files > 0 && sorted_position(ns, x)
                    >= max_files),
        decreases n - i,
    {
        let mut count: usize = 0;
        let mut j: usize = 0;
        while j < n
            invariant
                i < n == ns.len(),
                ns == numbers@,
                j <= n,
                count == count_ahead(ns, i as int, j as int),
                count <= j,
            decreases n - j,
        {
            if numbers[j] > numbers[i] || (numbers[j] == numbers[i] && j < i) {
                count = count + 1;
            }
            j = j + 1;
        }
        r.push(max_files > 0 && count >= max_files);
        i = i + 1;
    }
    r
}

/// If file `j` comes before file `i`, so does every file that comes
/// before `j`; counted over the first `k` files, `i` has at least as many
/// files before it as `j`, and one more once `j` itself is counted.
proof fn lemma_count_dominates(ns: Seq<u64>, i: int, j: int, k: int)
    requires
        0 <= i < ns.len(),
        0 <= j < ns.len(),
        ahead(ns, j, i),
        0 <= k <= ns.len(),
    ensures
        count_ahead(ns, i, k) >= count_ahead(ns, j, k) + (if j < k {
            1nat
        } else {
            0nat
        }),
    decreases k,
{
    if k > 0 {
        lemma_count_dominates(ns, i, j, k - 1);
    }
}

/// A file never comes before itself, so its position is below the count.
proof fn lemma_count_bound(ns: Seq<u64>, i: int, k: int)
    requires
        0 <= i < ns.len(),
        0 <= k <= ns.len(),
    ensures
        count_ahead(ns, i, k) + (if i < k {
            1nat
        } else {
            0nat
        }) <= k,
    decreases k,
{
    if k > 0 {
        lemma_count_bound(ns, i, k - 1);
    }
}

/// Files that stay come before every file that goes: once at most
/// `max_files` remain, the kept ones carry the highest numbers.
pub proof fn law_cleanup_keeps_newest(ns: Seq<u64>, max_files: nat, i: int, j: int)
    requires
        0 <= i < ns.len(),
        0 <= j < ns.len(),
        sorted_position(ns, i) < max_files,
        sorted_position(ns, j) >= max_files,
    ensures
        ahead(ns, i, j),
        ns[i] >= ns[j],
{
    if !ahead(ns, i, j) {
        assert(i != j);
        assert(ahead(ns, j, i));
        lemma_count_dominates(ns, i, j, ns.len() as int);
    }
}

/// The positions of the files in the sorted order are the numbers
/// `0 .. n` each once.
proof fn lemma_positions_permute(ns: Seq<u64>)
    ensures
        set_positions(ns) == vstd::set_lib::set_int_range(0, ns.len() as int),
        injective_positions(ns),
{
    let n = ns.len() as int;
    let dom = vstd::set_lib::set_int_range(0, n);
    let f = |i: int| sorted_position(ns, i) as int;
    assert forall|a: int, b: int|
        dom.contains(a) && dom.contains(b) && #[trigger] f(a) == #[trigger] f(b) implies a == b by {
        if a != b {
            if ahead(ns, a, b) {
                lemma_count_dominates(ns, b, a, n);
            } else {
                lemma_count_dominates(ns, a, b, n);
            }
        }
    }
    vstd::set_lib::lemma_int_range(0, n);
    vstd::set_lib::lemma_map_size(dom, dom.map(f), f);
    assert forall|p: int| dom.map(f).contains(p) implies dom.contains(p) by {
        let i = choose|i: int| dom.contains(i) && f(i) == p;
        lemma_count_bound(ns, i, n);
    }
    vstd::set_lib::lemma_subset_equality(dom.map(f), dom);
}

/// The set of the positions of the files.
spec fn set_positions(ns: Seq<u64>) -> Set<int> {
    vstd::set_lib::set_int_range(0, ns.len() as int).map(|i: int| sorted_position(ns, i) as int)
}

/// No two files share a position.
spec fn injective_positions(ns: Seq<u64>) -> bool {
    vstd::relations::injective_on(
        |i: int| sorted_position(ns, i) as int,
        vstd::set_lib::set_int_range(0, ns.len() as int),
    )
}

/// The files that `files_to_remove` leaves in place: all of them when
/// `max_files` is 0, the first `max_files` of the sorted order otherwise.
pub open spec fn kept_files(ns: Seq<u64>, max_files: nat) -> Set<int> {
    Set::new(|i: int| 0 <= i < ns.len() && (max_files == 0 || sorted_position(ns, i) < max_files))
}

/// Cleaning up leaves `max_files` files, or all of them when there are
/// fewer or `max_files` is 0.
pub proof fn law_cleanup_keeps_count(ns: Seq<u64>, max_files: nat)
    ensures
        kept_files(ns, max_files).finite(),
        kept_files(ns, max_files).len() == if max_files == 0 || ns.len() < max_files {
            ns.len()
        } else {
            max_files
        },
{
    let n = ns.len() as int;
    if max_files == 0 {
        vstd::set_lib::lemma_int_range(0, n);
        assert(kept_files(ns, max_files) =~= vstd::set_lib::set_int_range(0, n));
    } else {
        lemma_cleanup_count_positive(ns, max_files);
    }
}

proof fn lemma_cleanup_count_positive(ns: Seq<u64>, max_files: nat)
    requires
        max_files > 0,
    ensures
        kept_files(ns, max_files).finite(),
        kept_files(ns, max_files).len() == if ns.len() < max_files {
            ns.len()
        } else {
            max_files
        },
{
    let n = ns.len() as int;
    let m = if ns.len() < max_files {
        n
    } else {
        max_files as int
    };
    let f = |i: int| sorted_position(ns, i) as int;
    let dom = vstd::set_lib::set_int_range(0, n);
    let k = kept_files(ns, max_files);
    lemma_positions_permute(ns);
    vstd::set_lib::lemma_int_range(0, n);
    assert(k.subset_of(dom));
    vstd::set_lib::lemma_len_subset(k, dom);
    assert(vstd::relations::injective_on(f, k)) by {
        assert forall|a: int, b: int|
            k.contains(a) && k.contains(b) && #[trigger] f(a) == #[trigger] f(b) implies a == b by {
            assert(dom.contains(a) && dom.contains(b));
        }
    }
    let target = vstd::set_lib::set_int_range(0, m);
    assert forall|p: int| k.map(f).contains(p) implies target.contains(p) by {
        let i = choose|i: int| k.contains(i) && f(i) == p;
        assert(dom.map(f).contains(p));
    }
    assert forall|p: int| target.contains(p) implies k.map(f).contains(p) by {
        assert(dom.contains(p));
        assert(dom.map(f).contains(p));
        let i = choose|i: int| dom.contains(i) && f(i) == p;
        assert(k.contains(i));
    }
    assert(k.map(f) =~= target);
    vstd::set_lib::lemma_map_size(k, target, f);
    vstd::set_lib::lemma_int_range(0, m);
}

/// `s` without its leading dots.
pub open spec fn trim_dots(s: Seq<char>) -> Seq<char>
    decreases s.len(),
{
    if s.len() > 0 && s[0] == '.' {
        trim_dots(s.skip(1))
    } else {
        s
    }
}

/// The extension of a compressed file whose extension was `ext` (empty
/// when it had none): `ext.gz`, or `gz` without an extension (leading dots
/// trimmed, as std's `trim_start_matches('.')` does).
pub fn compressed_extension(ext: &str) -> (r: String)
    ensures
        r@ == trim_dots(ext@ + gz_suffix()),
{
    let mut e = chars_of(ext);
    e.push('.');
    e.push('g');
    e.push('z');
    assert(e@ =~= ext@ + gz_suffix());
    assert(e@.skip(0) =~= e@);
    let mut a: usize = 0;
    while a < e.len() && e[a] == '.'
        invariant
            a <= e@.len(),
            trim_dots(e@) == trim_dots(e@.skip(a as int)),
        decreases e@.len() - a,
    {
        assert(e@.skip(a as int).skip(1) =~= e@.skip(a + 1));
        a = a + 1;
    }
    let mut s = String::new();
    push_chars(&mut s, &e, a, e.len());
    assert(e@.subrange(a as int, e@.len() as int) =~= e@.skip(a as int));
    s
}

/// Whether the day changed since a log file was opened: the date it was
/// opened on differs from today's.
pub fn is_new_day(opened_on: &str, today: &str) -> (r: bool)
    ensures
        r == (opened_on@ != today@),
{
    let a = chars_of(opened_on);
    let b = chars_of(today);
    !crate::text::same_chars(&a, &b)
}

} // verus!
