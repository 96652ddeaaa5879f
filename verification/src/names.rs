//! File names: which names belong to a writer, which of two names is the
//! older one, and how the name of a new file is put together.

use vstd::prelude::*;
use vstd::string::*;

verus! {

/// A name belongs to a writer when it starts with the writer's prefix and ends
/// with its suffix. Both tests look at the whole name and are independent of
/// each other, so the two fragments may overlap inside a short name.
pub open spec fn matches_pattern(name: Seq<char>, prefix: Seq<char>, suffix: Seq<char>) -> bool {
    prefix.is_prefix_of(name) && suffix.is_suffix_of(name)
}

/// Strict lexicographic order by code point: `a` comes before `b`.
///
/// This is the order in which names are aged: the name that precedes all
/// others is the oldest.
pub open spec fn precedes(a: Seq<char>, b: Seq<char>) -> bool
    decreases a.len(),
{
    if b.len() == 0 {
        false
    } else if a.len() == 0 {
        true
    } else if a[0] != b[0] {
        a[0] < b[0]
    } else {
        precedes(a.drop_first(), b.drop_first())
    }
}

/// The name of a file: prefix, time stamp and suffix, in this order.
pub open spec fn file_name(prefix: Seq<char>, stamp: Seq<char>, suffix: Seq<char>) -> Seq<char> {
    prefix + stamp + suffix
}

/// Two names that agree on their first `n` characters are ordered as their
/// remainders are.
pub proof fn lemma_precedes_skip(a: Seq<char>, b: Seq<char>, n: int)
    requires
        0 <= n <= a.len(),
        n <= b.len(),
        a.take(n) == b.take(n),
    ensures
        precedes(a, b) == precedes(a.skip(n), b.skip(n)),
    decreases n,
{
    if n == 0 {
        assert(a.skip(0) =~= a);
        assert(b.skip(0) =~= b);
    } else {
        assert(a[0] == a.take(n)[0]);
        assert(b[0] == b.take(n)[0]);
        let a1 = a.drop_first();
        let b1 = b.drop_first();
        assert(a1.take(n - 1) =~= a.take(n).drop_first());
        assert(b1.take(n - 1) =~= b.take(n).drop_first());
        lemma_precedes_skip(a1, b1, n - 1);
        assert(a1.skip(n - 1) =~= a.skip(n));
        assert(b1.skip(n - 1) =~= b.skip(n));
    }
}

/// No name precedes itself.
pub proof fn lemma_precedes_irreflexive(a: Seq<char>)
    ensures
        !precedes(a, a),
    decreases a.len(),
{
    if a.len() > 0 {
        lemma_precedes_irreflexive(a.drop_first());
    }
}

/// The order of names is transitive.
pub proof fn lemma_precedes_transitive(a: Seq<char>, b: Seq<char>, c: Seq<char>)
    requires
        precedes(a, b),
        precedes(b, c),
    ensures
        precedes(a, c),
    decreases a.len(),
{
    if a.len() > 0 && a[0] == b[0] && b[0] == c[0] {
        lemma_precedes_transitive(a.drop_first(), b.drop_first(), c.drop_first());
    }
}

/// Of two different names one precedes the other.
pub proof fn lemma_precedes_total(a: Seq<char>, b: Seq<char>)
    ensures
        precedes(a, b) || precedes(b, a) || a == b,
    decreases a.len(),
{
    if a.len() == 0 || b.len() == 0 {
        if a.len() == 0 && b.len() == 0 {
            assert(a =~= b);
        }
    } else if a[0] == b[0] {
        let a1 = a.drop_first();
        let b1 = b.drop_first();
        lemma_precedes_total(a1, b1);
        if a1 == b1 {
            assert(a =~= seq![a[0]] + a1);
            assert(b =~= seq![b[0]] + b1);
        }
    }
}

/// A name made of a prefix, any stamp and a suffix matches that prefix and
/// suffix.
pub proof fn lemma_file_name_matches(prefix: Seq<char>, stamp: Seq<char>, suffix: Seq<char>)
    ensures
        matches_pattern(file_name(prefix, stamp, suffix), prefix, suffix),
{
    let name = file_name(prefix, stamp, suffix);
    assert(name.subrange(0, prefix.len() as int) =~= prefix);
    assert(name.subrange(name.len() - suffix.len(), name.len() as int) =~= suffix);
}

/// What follows two stamps of one length does not change their order.
pub proof fn lemma_precedes_before_same_tail(a: Seq<char>, b: Seq<char>, tail: Seq<char>)
    requires
        a.len() == b.len(),
    ensures
        precedes(a + tail, b + tail) == precedes(a, b),
    decreases a.len(),
{
    if a.len() == 0 {
        assert(a + tail =~= tail);
        assert(b + tail =~= tail);
        lemma_precedes_irreflexive(tail);
    } else {
        assert((a + tail)[0] == a[0]);
        assert((b + tail)[0] == b[0]);
        assert((a + tail).drop_first() =~= a.drop_first() + tail);
        assert((b + tail).drop_first() =~= b.drop_first() + tail);
        lemma_precedes_before_same_tail(a.drop_first(), b.drop_first(), tail);
    }
}

/// The files of one writer age as their stamps do: of two names with the same
/// prefix and suffix and with stamps of one length, that with the earlier
/// stamp is the older.
pub proof fn lemma_names_sort_as_stamps(
    prefix: Seq<char>,
    a: Seq<char>,
    b: Seq<char>,
    suffix: Seq<char>,
)
    requires
        a.len() == b.len(),
    ensures
        precedes(file_name(prefix, a, suffix), file_name(prefix, b, suffix)) == precedes(a, b),
{
    let x = file_name(prefix, a, suffix);
    let y = file_name(prefix, b, suffix);
    let n = prefix.len() as int;
    assert(x.take(n) =~= prefix);
    assert(y.take(n) =~= prefix);
    lemma_precedes_skip(x, y, n);
    assert(x.skip(n) =~= a + suffix);
    assert(y.skip(n) =~= b + suffix);
    lemma_precedes_before_same_tail(a, b, suffix);
}

/// The characters of a string, one element per code point.
pub fn chars_of(s: &str) -> (v: Vec<char>)
    ensures
        v@ == s@,
{
    let mut v: Vec<char> = Vec::new();
    for c in it: s.chars()
        invariant
            v@ == it.seq().take(it.index() as int),
            it.seq() == s@,
    {
        v.push(c);
    }
    v
}

fn starts_with(name: &Vec<char>, prefix: &Vec<char>) -> (r: bool)
    ensures
        r == prefix@.is_prefix_of(name@),
{
    if prefix.len() > name.len() {
        return false;
    }
    let mut i: usize = 0;
    while i < prefix.len()
        invariant
            i <= prefix.len() <= name.len(),
            forall|k: int| 0 <= k < i ==> prefix[k] == name[k],
        decreases prefix.len() - i,
    {
        if prefix[i] != name[i] {
            assert(name@.subrange(0, prefix.len() as int)[i as int] == name[i as int]);
            return false;
        }
        i += 1;
    }
    assert(prefix@ =~= name@.subrange(0, prefix.len() as int));
    true
}

fn ends_with(name: &Vec<char>, suffix: &Vec<char>) -> (r: bool)
    ensures
        r == suffix@.is_suffix_of(name@),
{
    if suffix.len() > name.len() {
        return false;
    }
    let shift: usize = name.len() - suffix.len();
    let mut i: usize = 0;
    while i < suffix.len()
        invariant
            i <= suffix.len() <= name.len(),
            shift == name.len() - suffix.len(),
            forall|k: int| 0 <= k < i ==> suffix[k] == name[shift + k],
        decreases suffix.len() - i,
    {
        if suffix[i] != name[shift + i] {
            assert(name@.subrange(shift as int, name.len() as int)[i as int] == name[shift + i]);
            return false;
        }
        i += 1;
    }
    assert(suffix@ =~= name@.subrange(shift as int, name.len() as int));
    true
}

/// Tells whether `name` starts with `prefix` and ends with `suffix`.
pub fn is_matching(name: &str, prefix: &str, suffix: &str) -> (r: bool)
    ensures
        r == matches_pattern(name@, prefix@, suffix@),
{
    let n = chars_of(name);
    let p = chars_of(prefix);
    let s = chars_of(suffix);
    starts_with(&n, &p) && ends_with(&n, &s)
}

/// Tells whether `a` comes before `b` in the order of names.
pub fn name_precedes(a: &str, b: &str) -> (r: bool)
    ensures
        r == precedes(a@, b@),
{
    let x = chars_of(a);
    let y = chars_of(b);
    let mut i: usize = 0;
    while i < x.len() && i < y.len()
        invariant
            i <= x.len(),
            i <= y.len(),
            x@ == a@,
            y@ == b@,
            a@.take(i as int) == b@.take(i as int),
        decreases x.len() - i,
    {
        if x[i] != y[i] {
            proof {
                lemma_precedes_skip(a@, b@, i as int);
                assert(a@.skip(i as int)[0] == x[i as int]);
                assert(b@.skip(i as int)[0] == y[i as int]);
            }
            return x[i] < y[i];
        }
        assert(a@.take(i + 1) =~= a@.take(i as int).push(a@[i as int]));
        assert(b@.take(i + 1) =~= b@.take(i as int).push(b@[i as int]));
        i += 1;
    }
    proof {
        lemma_precedes_skip(a@, b@, i as int);
    }
    i < y.len()
}

/// Tells whether the character `c` occurs in `s`.
pub fn contains_char(s: &str, c: char) -> (r: bool)
    ensures
        r == s@.contains(c),
{
    let v = chars_of(s);
    let mut i: usize = 0;
    while i < v.len()
        invariant
            i <= v.len(),
            v@ == s@,
            forall|k: int| 0 <= k < i ==> v[k] != c,
        decreases v.len() - i,
    {
        if v[i] == c {
            return true;
        }
        i += 1;
    }
    false
}

/// Puts a file name together from its three parts.
pub fn compose_name(prefix: &str, stamp: &str, suffix: &str) -> (name: String)
    ensures
        name@ == file_name(prefix@, stamp@, suffix@),
{
    let mut name = prefix.to_owned();
    name.append(stamp);
    name.append(suffix);
    name
}

/// The last second of Unix time that can be stamped at any offset from UTC:
/// a day before the end of the year 9999.
pub const LAST_STAMPED_SECOND: u64 = 253_402_214_399;

/// The stamp of a second of Unix time at an offset from UTC, in seconds east:
/// the local date and time as year, month, day, hour, minute and second, each
/// but the first of two digits, joined by `-`. There is none where the date
/// cannot be told or the offset is a day or more.
///
/// This names what `stamp_second` returns; the library does not compute it.
pub uninterp spec fn local_stamp(unix_seconds: u64, utc_offset: i32) -> Option<Seq<char>>;

/// Whether a second and an offset can be stamped in the common form: the local
/// year has four digits.
pub open spec fn stampable(unix_seconds: u64, utc_offset: i32) -> bool {
    unix_seconds <= LAST_STAMPED_SECOND && -86_400 < utc_offset < 86_400
}

/// The common form of a stamp: `YYYY-MM-DD-hh-mm-ss`, nineteen characters,
/// digits but for the five `-`.
pub open spec fn well_formed_stamp(stamp: Seq<char>) -> bool {
    &&& stamp.len() == 19
    &&& forall|i: int|
        0 <= i < 19 ==> if i == 4 || i == 7 || i == 10 || i == 13 || i == 16 {
            #[trigger] stamp[i] == '-'
        } else {
            '0' <= stamp[i] <= '9'
        }
}

/// The stamp of a second of Unix time at an offset from UTC.
///
/// Trusted: the body is `chrono::DateTime::from_timestamp`,
/// `chrono::FixedOffset::east_opt`, `DateTime::with_timezone`,
/// `DateTime::format` with `%Y-%m-%d-%H-%M-%S`, and `to_string`. The result
/// depends on the two arguments alone and is named `local_stamp`. For a second
/// up to `LAST_STAMPED_SECOND` and an offset of less than a day, `chrono` has
/// a date with a year from 1969 to 9999 and writes the year with four digits
/// and every other field with two.
#[verifier::external_body]
fn stamp_second(unix_seconds: u64, utc_offset: i32) -> (stamp: Option<String>)
    ensures
        match stamp {
            Some(text) => local_stamp(unix_seconds, utc_offset) == Some(text@),
            None => local_stamp(unix_seconds, utc_offset) is None,
        },
        stampable(unix_seconds, utc_offset) ==> stamp is Some && well_formed_stamp(stamp->0@),
{
    let utc = chrono::DateTime::from_timestamp(i64::try_from(unix_seconds).ok()?, 0)?;
    let zone = chrono::FixedOffset::east_opt(utc_offset)?;
    Some(utc.with_timezone(&zone).format("%Y-%m-%d-%H-%M-%S").to_string())
}

/// The largest serial number that a file name can carry.
pub const LAST_SERIAL: u32 = 999_999;

/// The character of a decimal digit.
pub open spec fn digit(d: nat) -> char {
    if d == 0 {
        '0'
    } else if d == 1 {
        '1'
    } else if d == 2 {
        '2'
    } else if d == 3 {
        '3'
    } else if d == 4 {
        '4'
    } else if d == 5 {
        '5'
    } else if d == 6 {
        '6'
    } else if d == 7 {
        '7'
    } else if d == 8 {
        '8'
    } else {
        '9'
    }
}

/// The last `width` decimal digits of a number, leading zeros included.
pub open spec fn serial_digits(serial: nat, width: nat) -> Seq<char>
    decreases width,
{
    if width == 0 {
        Seq::empty()
    } else {
        serial_digits(serial / 10, (width - 1) as nat).push(digit(serial % 10))
    }
}

/// Whether a number can be told in `width` decimal digits.
pub open spec fn fits_digits(serial: nat, width: nat) -> bool
    decreases width,
{
    if width == 0 {
        serial == 0
    } else {
        fits_digits(serial / 10, (width - 1) as nat)
    }
}

/// What stands between prefix and suffix in a file name: the stamp, a `-`, and
/// the serial number in six digits. The serial number tells apart the files of
/// one stamp; it is there in every name, so that names stay in order.
pub open spec fn label(stamp: Seq<char>, serial: u32) -> Seq<char> {
    stamp + seq!['-'] + serial_digits(serial as nat, 6)
}

/// The name of the file with the given stamp and serial number.
pub open spec fn labelled_name(
    prefix: Seq<char>,
    stamp: Seq<char>,
    serial: u32,
    suffix: Seq<char>,
) -> Seq<char> {
    file_name(prefix, label(stamp, serial), suffix)
}

/// The stamp and the serial number of the file that follows the file of
/// `last_stamp` and `last_serial` when the clock gives the stamp `fresh`: the
/// fresh stamp with serial number 0 where it comes after the last stamp, and
/// else the last stamp once more with the next serial number, be it that the
/// second has not passed or that the clock was set back. `skip` numbers are
/// passed over. There is none where the stamp is not in the common form or
/// the serial numbers have run out.
pub open spec fn next_label(
    last_stamp: Seq<char>,
    last_serial: u32,
    fresh: Seq<char>,
    skip: nat,
) -> Option<(Seq<char>, u32)> {
    let stamp = if precedes(last_stamp, fresh) {
        fresh
    } else {
        last_stamp
    };
    let serial: nat = if precedes(last_stamp, fresh) {
        skip
    } else {
        (last_serial + 1 + skip) as nat
    };
    if well_formed_stamp(stamp) && serial <= LAST_SERIAL {
        Some((stamp, serial as u32))
    } else {
        None
    }
}

/// A serial number is told in as many digits as were asked for.
pub proof fn lemma_serial_digits_len(serial: nat, width: nat)
    ensures
        serial_digits(serial, width).len() == width,
    decreases width,
{
    if width > 0 {
        lemma_serial_digits_len(serial / 10, (width - 1) as nat);
    }
}

/// Of two sequences of one length, each with one more character at its end,
/// the first precedes the second where it did before, or where the two were
/// equal and its last character is the smaller.
pub proof fn lemma_precedes_push(a: Seq<char>, b: Seq<char>, x: char, y: char)
    requires
        a.len() == b.len(),
    ensures
        precedes(a.push(x), b.push(y)) == (precedes(a, b) || (a == b && x < y)),
    decreases a.len(),
{
    if a.len() == 0 {
        assert(a =~= b);
        assert(a.push(x)[0] == x);
        assert(b.push(y)[0] == y);
        assert(a.push(x).drop_first() =~= Seq::<char>::empty());
        assert(b.push(y).drop_first() =~= Seq::<char>::empty());
        assert(!precedes(a.push(x).drop_first(), b.push(y).drop_first()));
        assert(!precedes(a, b));
    } else {
        let a1 = a.drop_first();
        let b1 = b.drop_first();
        assert(a.push(x)[0] == a[0]);
        assert(b.push(y)[0] == b[0]);
        assert(a.push(x).drop_first() =~= a1.push(x));
        assert(b.push(y).drop_first() =~= b1.push(y));
        lemma_precedes_push(a1, b1, x, y);
        if a[0] == b[0] {
            if a1 == b1 {
                assert(a =~= seq![a[0]] + a1);
                assert(b =~= seq![b[0]] + b1);
            }
            assert(precedes(a, b) == precedes(a1, b1));
            assert(precedes(a.push(x), b.push(y)) == precedes(a1.push(x), b1.push(y)));
        } else {
            assert(precedes(a, b) == (a[0] < b[0]));
            assert(precedes(a.push(x), b.push(y)) == (a[0] < b[0]));
        }
    }
}

/// Serial numbers told in the same number of digits are ordered as numbers.
pub proof fn lemma_serial_digits_order(m: nat, n: nat, width: nat)
    requires
        m < n,
        fits_digits(n, width),
    ensures
        precedes(serial_digits(m, width), serial_digits(n, width)),
        fits_digits(m, width),
    decreases width,
{
    if width > 0 {
        let w = (width - 1) as nat;
        lemma_serial_digits_len(m / 10, w);
        lemma_serial_digits_len(n / 10, w);
        lemma_precedes_push(
            serial_digits(m / 10, w),
            serial_digits(n / 10, w),
            digit(m % 10),
            digit(n % 10),
        );
        if m / 10 < n / 10 {
            lemma_serial_digits_order(m / 10, n / 10, w);
        } else {
            assert(m / 10 == n / 10);
            assert(m % 10 < n % 10);
        }
    }
}

/// Of two sequences of one length the first precedes the second whatever
/// follows them, where it precedes it without.
pub proof fn lemma_precedes_whatever_follows(a: Seq<char>, b: Seq<char>, x: Seq<char>, y: Seq<char>)
    requires
        a.len() == b.len(),
        precedes(a, b),
    ensures
        precedes(a + x, b + y),
    decreases a.len(),
{
    assert(a.len() > 0);
    assert((a + x)[0] == a[0]);
    assert((b + y)[0] == b[0]);
    if a[0] == b[0] {
        assert((a + x).drop_first() =~= a.drop_first() + x);
        assert((b + y).drop_first() =~= b.drop_first() + y);
        lemma_precedes_whatever_follows(a.drop_first(), b.drop_first(), x, y);
    }
}

/// Names are ordered as their stamps and serial numbers are: the name of a
/// later stamp comes later, and of two names of one stamp that with the
/// greater serial number.
pub proof fn lemma_labels_rise(
    prefix: Seq<char>,
    suffix: Seq<char>,
    stamp: Seq<char>,
    serial: u32,
    next_stamp: Seq<char>,
    next_serial: u32,
)
    requires
        stamp.len() == next_stamp.len(),
        next_serial <= LAST_SERIAL,
        precedes(stamp, next_stamp) || (stamp == next_stamp && serial < next_serial),
    ensures
        precedes(
            labelled_name(prefix, stamp, serial, suffix),
            labelled_name(prefix, next_stamp, next_serial, suffix),
        ),
{
    let a = label(stamp, serial);
    let b = label(next_stamp, next_serial);
    let da = serial_digits(serial as nat, 6);
    let db = serial_digits(next_serial as nat, 6);
    lemma_serial_digits_len(serial as nat, 6);
    lemma_serial_digits_len(next_serial as nat, 6);
    lemma_names_sort_as_stamps(prefix, a, b, suffix);
    if precedes(stamp, next_stamp) {
        assert(a =~= stamp + (seq!['-'] + da));
        assert(b =~= next_stamp + (seq!['-'] + db));
        lemma_precedes_whatever_follows(stamp, next_stamp, seq!['-'] + da, seq!['-'] + db);
    } else {
        assert(fits_digits(next_serial as nat, 6)) by {
            reveal_with_fuel(fits_digits, 7);
        }
        lemma_serial_digits_order(serial as nat, next_serial as nat, 6);
        let head = stamp + seq!['-'];
        assert(a.take(head.len() as int) =~= head);
        assert(b.take(head.len() as int) =~= head);
        lemma_precedes_skip(a, b, head.len() as int);
        assert(a.skip(head.len() as int) =~= da);
        assert(b.skip(head.len() as int) =~= db);
    }
}

/// The file that follows another has a name that comes after the name of that
/// other.
pub proof fn lemma_next_label_rises(
    prefix: Seq<char>,
    suffix: Seq<char>,
    last_stamp: Seq<char>,
    last_serial: u32,
    fresh: Seq<char>,
    skip: nat,
)
    requires
        well_formed_stamp(last_stamp),
        next_label(last_stamp, last_serial, fresh, skip) is Some,
    ensures
        ({
            let (stamp, serial) = next_label(last_stamp, last_serial, fresh, skip)->0;
            precedes(
                labelled_name(prefix, last_stamp, last_serial, suffix),
                labelled_name(prefix, stamp, serial, suffix),
            )
        }),
{
    let (stamp, serial) = next_label(last_stamp, last_serial, fresh, skip)->0;
    lemma_labels_rise(prefix, suffix, last_stamp, last_serial, stamp, serial);
}

/// Tells whether a text is a stamp in the common form.
pub fn is_stamp(text: &str) -> (r: bool)
    ensures
        r == well_formed_stamp(text@),
{
    let v = chars_of(text);
    if v.len() != 19 {
        return false;
    }
    let mut i: usize = 0;
    while i < 19
        invariant
            i <= 19,
            v.len() == 19,
            v@ == text@,
            forall|k: int|
                0 <= k < i ==> if k == 4 || k == 7 || k == 10 || k == 13 || k == 16 {
                    #[trigger] v[k] == '-'
                } else {
                    '0' <= v[k] <= '9'
                },
        decreases 19 - i,
    {
        let c = v[i];
        if i == 4 || i == 7 || i == 10 || i == 13 || i == 16 {
            if c != '-' {
                return false;
            }
        } else if c < '0' || c > '9' {
            return false;
        }
        i += 1;
    }
    true
}

fn digit_text(d: u32) -> (text: &'static str)
    ensures
        d < 10 ==> text@ == seq![digit(d as nat)],
{
    proof {
        reveal_strlit("0");
        reveal_strlit("1");
        reveal_strlit("2");
        reveal_strlit("3");
        reveal_strlit("4");
        reveal_strlit("5");
        reveal_strlit("6");
        reveal_strlit("7");
        reveal_strlit("8");
        reveal_strlit("9");
    }
    let text = if d == 0 {
        "0"
    } else if d == 1 {
        "1"
    } else if d == 2 {
        "2"
    } else if d == 3 {
        "3"
    } else if d == 4 {
        "4"
    } else if d == 5 {
        "5"
    } else if d == 6 {
        "6"
    } else if d == 7 {
        "7"
    } else if d == 8 {
        "8"
    } else {
        "9"
    };
    assert(d < 10 ==> text@ =~= seq![digit(d as nat)]);
    text
}

/// Puts the name of a file together from its prefix, its stamp, its serial
/// number and its suffix.
pub fn compose_labelled_name(prefix: &str, stamp: &str, serial: u32, suffix: &str) -> (name: String)
    ensures
        name@ == labelled_name(prefix@, stamp@, serial, suffix@),
{
    let mut text = stamp.to_owned();
    proof {
        reveal_strlit("-");
    }
    text.append("-");
    let ghost head = stamp@ + seq!['-'];
    assert(text@ =~= head);
    let mut place: u32 = 100_000;
    let mut written: usize = 0;
    let ghost all = serial_digits(serial as nat, 6);
    proof {
        lemma_serial_digits_len(serial as nat, 6);
    }
    while written < 6
        invariant
            written <= 6,
            head == stamp@ + seq!['-'],
            all == serial_digits(serial as nat, 6),
            all.len() == 6,
            text@ == head + all.take(written as int),
            written == 0 ==> place == 100_000,
            written == 1 ==> place == 10_000,
            written == 2 ==> place == 1_000,
            written == 3 ==> place == 100,
            written == 4 ==> place == 10,
            written == 5 ==> place == 1,
        decreases 6 - written,
    {
        let d = (serial / place) % 10;
        proof {
            reveal_with_fuel(serial_digits, 7);
            let n = serial as nat;
            assert(all[5] == digit(n % 10));
            assert(all[4] == digit((n / 10) % 10));
            assert(all[3] == digit((n / 10 / 10) % 10));
            assert(all[2] == digit((n / 10 / 10 / 10) % 10));
            assert(all[1] == digit((n / 10 / 10 / 10 / 10) % 10));
            assert(all[0] == digit((n / 10 / 10 / 10 / 10 / 10) % 10));
            assert(n / 10 / 10 == n / 100);
            assert(n / 10 / 10 / 10 == n / 1000);
            assert(n / 10 / 10 / 10 / 10 == n / 10000);
            assert(n / 10 / 10 / 10 / 10 / 10 == n / 100000);
            assert(all[written as int] == digit(d as nat));
            assert(all.take(written + 1) =~= all.take(written as int).push(all[written as int]));
        }
        text.append(digit_text(d));
        assert(text@ =~= head + all.take(written + 1));
        if written < 5 {
            place = place / 10;
        }
        written += 1;
    }
    assert(all.take(6) =~= all);
    let name = compose_name(prefix, text.as_str(), suffix);
    name
}

/// Makes the stamp of a second of Unix time at an offset from UTC, in seconds
/// east. There is a stamp in the common form for every second up to
/// `LAST_STAMPED_SECOND` at every offset of less than a day.
pub fn make_stamp(unix_seconds: u64, utc_offset: i32) -> (stamp: Option<String>)
    ensures
        match stamp {
            Some(text) => local_stamp(unix_seconds, utc_offset) == Some(text@),
            None => local_stamp(unix_seconds, utc_offset) is None,
        },
        stampable(unix_seconds, utc_offset) ==> stamp is Some && well_formed_stamp(stamp->0@),
{
    stamp_second(unix_seconds, utc_offset)
}

/// The file to make next: its name, and the stamp and the serial number that
/// the name carries.
#[derive(Debug, Clone, PartialEq, Eq)]
pub struct NextFile {
    pub name: String,
    pub stamp: String,
    pub serial: u32,
}

/// Names the file that follows the file of `last_stamp` and `last_serial`
/// (an empty stamp where there is none yet), made at the given second of Unix
/// time where the local time is `utc_offset` seconds east of UTC, passing over
/// `skip` serial numbers. Two files made within one second, or made while the
/// clock is behind the last stamp, get the same stamp and rising serial
/// numbers.
pub fn next_file_name(
    prefix: &str,
    suffix: &str,
    last_stamp: &str,
    last_serial: u32,
    skip: u32,
    unix_seconds: u64,
    utc_offset: i32,
) -> (next: Option<NextFile>)
    ensures
        match local_stamp(unix_seconds, utc_offset) {
            None => next is None,
            Some(fresh) => match next_label(last_stamp@, last_serial, fresh, skip as nat) {
                None => next is None,
                Some((stamp, serial)) => next matches Some(file) && file.stamp@ == stamp
                    && file.serial == serial && file.name@ == labelled_name(
                    prefix@,
                    stamp,
                    serial,
                    suffix@,
                ),
            },
        },
        stampable(unix_seconds, utc_offset) ==> local_stamp(unix_seconds, utc_offset) is Some
            && well_formed_stamp(local_stamp(unix_seconds, utc_offset)->0),
{
    let fresh = match make_stamp(unix_seconds, utc_offset) {
        Some(fresh) => fresh,
        None => {
            return None;
        },
    };
    let later = name_precedes(last_stamp, fresh.as_str());
    let stamp = if later {
        fresh
    } else {
        last_stamp.to_owned()
    };
    let serial: u64 = if later {
        skip as u64
    } else {
        last_serial as u64 + 1 + skip as u64
    };
    if !is_stamp(stamp.as_str()) || serial > LAST_SERIAL as u64 {
        return None;
    }
    let serial = serial as u32;
    let name = compose_labelled_name(prefix, stamp.as_str(), serial, suffix);
    Some(NextFile { name, stamp, serial })
}

} // verus!
