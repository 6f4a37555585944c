//! Seed files on disk: their names, their sequence numbers, and which files a directory holds.
use vstd::prelude::*;
use vstd::relations::{sorted_by, total_ordering};
use vstd::seq_lib::{lemma_sorted_unique, to_multiset_build, to_multiset_contains, to_multiset_insert};
use crate::numbers::{all_digits, decimal, decimal_chars, digits_value, digits_within, lemma_decimal_digits, parse_digits};
use crate::text::{
    ascii_alnum, ascii_digit, ascii_lower_char, chars_of, is_alnum, is_digit, lower_char, push_all,
    slice_chars, string_chars, string_from_chars, strip, strip_end, strip_start, trim_class,
    CharClass,
};

verus! {

/// The slug built so far from a name, and whether it ends in a hyphen just added.
pub open spec fn slug_state(s: Seq<char>) -> (Seq<char>, bool)
    decreases s.len(),
{
    if s.len() == 0 {
        (Seq::<char>::empty(), false)
    } else {
        let (acc, last_hyphen) = slug_state(s.drop_last());
        let c = s.last();
        if is_alnum(c) {
            (acc.push(lower_char(c)), false)
        } else if (c == ' ' || c == '-' || c == '_') && !last_hyphen && acc.len() > 0 {
            (acc.push('-'), true)
        } else {
            (acc, last_hyphen)
        }
    }
}

/// The slug of a name: ASCII letters and digits in lowercase, each run of spaces, hyphens and
/// underscores after them as one hyphen, other characters dropped, no hyphen at either end;
/// `seed` when nothing is left.
pub open spec fn slug(s: Seq<char>) -> Seq<char> {
    let t = strip(slug_state(s).0, CharClass::Exactly('-'));
    if t.len() == 0 {
        "seed"@
    } else {
        t
    }
}

/// The file name's slug for a seed name.
pub fn slugify(name: &str) -> (r: String)
    ensures
        r@ == slug(name@),
{
    let chars = chars_of(name);
    let mut acc: Vec<char> = Vec::new();
    let mut last_hyphen = false;
    for i in 0..chars.len()
        invariant
            (acc@, last_hyphen) == slug_state(chars@.take(i as int)),
    {
        assert(chars@.take(i + 1).drop_last() =~= chars@.take(i as int));
        let c = chars[i];
        if ascii_alnum(c) {
            acc.push(ascii_lower_char(c));
            last_hyphen = false;
        } else if (c == ' ' || c == '-' || c == '_') && !last_hyphen && acc.len() > 0 {
            acc.push('-');
            last_hyphen = true;
        }
    }
    assert(chars@.take(chars.len() as int) =~= chars@);
    let trimmed = trim_class(&acc, &CharClass::Exactly('-'));
    if trimmed.len() == 0 {
        crate::text::owned("seed")
    } else {
        string_from_chars(&trimmed)
    }
}

/// A character that a slug may hold: a lowercase ASCII letter, an ASCII digit or a hyphen.
pub open spec fn slug_char(c: char) -> bool {
    ||| 'a' <= c <= 'z'
    ||| '0' <= c <= '9'
    ||| c == '-'
}

/// A well-formed slug: non-empty, made of slug characters, with no hyphen at either end and
/// no two hyphens in a row.
pub open spec fn is_slug(t: Seq<char>) -> bool {
    &&& t.len() > 0
    &&& forall|i: int| 0 <= i < t.len() ==> slug_char(#[trigger] t[i])
    &&& t[0] != '-'
    &&& t.last() != '-'
    &&& forall|i: int| 0 <= i < t.len() - 1 ==> !(#[trigger] t[i] == '-' && t[i + 1] == '-')
}

proof fn lemma_slug_state_shape(s: Seq<char>)
    ensures
        ({
            let (acc, hyphen) = slug_state(s);
            &&& forall|i: int| 0 <= i < acc.len() ==> slug_char(#[trigger] acc[i])
            &&& acc.len() > 0 ==> acc[0] != '-'
            &&& forall|i: int| 0 <= i < acc.len() - 1 ==> !(#[trigger] acc[i] == '-' && acc[i + 1] == '-')
            &&& hyphen <==> (acc.len() > 0 && acc.last() == '-')
        }),
    decreases s.len(),
{
    if s.len() > 0 {
        lemma_slug_state_shape(s.drop_last());
        let (prev, h) = slug_state(s.drop_last());
        let (acc, hyphen) = slug_state(s);
        let c = s.last();
        if is_alnum(c) {
            assert(acc == prev.push(lower_char(c)));
            assert(slug_char(lower_char(c)));
            assert forall|i: int| 0 <= i < acc.len() implies slug_char(#[trigger] acc[i]) by {
                if i < prev.len() {
                    assert(acc[i] == prev[i]);
                }
            }
            assert forall|i: int| 0 <= i < acc.len() - 1 implies !(#[trigger] acc[i] == '-' && acc[i + 1] == '-') by {
                if i + 1 < prev.len() {
                    assert(acc[i] == prev[i] && acc[i + 1] == prev[i + 1]);
                }
            }
        } else if (c == ' ' || c == '-' || c == '_') && !h && prev.len() > 0 {
            assert(acc == prev.push('-'));
            assert forall|i: int| 0 <= i < acc.len() implies slug_char(#[trigger] acc[i]) by {
                if i < prev.len() {
                    assert(acc[i] == prev[i]);
                }
            }
            assert forall|i: int| 0 <= i < acc.len() - 1 implies !(#[trigger] acc[i] == '-' && acc[i + 1] == '-') by {
                if i + 1 < prev.len() {
                    assert(acc[i] == prev[i] && acc[i + 1] == prev[i + 1]);
                } else {
                    assert(acc[i] == prev.last());
                }
            }
        }
    }
}

/// Every slug is well-formed: non-empty, of lowercase ASCII letters, digits and hyphens, with
/// no hyphen at either end and no two in a row.
pub proof fn law_slug_is_well_formed(name: Seq<char>)
    ensures
        is_slug(slug(name)),
{
    lemma_slug_state_shape(name);
    let acc = slug_state(name).0;
    let k = CharClass::Exactly('-');
    assert(strip_start(acc, k) == acc);
    let t = strip(acc, k);
    if acc.len() > 0 && acc.last() == '-' {
        let d = acc.drop_last();
        assert(strip_end(acc, k) == strip_end(d, k));
        if d.len() > 0 {
            assert(d.last() == acc[acc.len() - 2]);
        }
        assert(strip_end(d, k) == d);
        assert(t == d);
        assert forall|i: int| 0 <= i < d.len() implies slug_char(#[trigger] d[i]) by {
            assert(d[i] == acc[i]);
        }
        assert forall|i: int| 0 <= i < d.len() - 1 implies !(#[trigger] d[i] == '-' && d[i + 1] == '-') by {
            assert(d[i] == acc[i] && d[i + 1] == acc[i + 1]);
        }
    } else {
        assert(t == acc);
    }
    if t.len() == 0 {
        reveal_strlit("seed");
        assert(slug(name) == "seed"@);
    }
}

proof fn lemma_slug_state_of_slug(t: Seq<char>, k: int)
    requires
        is_slug(t),
        0 <= k <= t.len(),
    ensures
        slug_state(t.take(k)) == (t.take(k), k > 0 && t[k - 1] == '-'),
    decreases k,
{
    if k > 0 {
        lemma_slug_state_of_slug(t, k - 1);
        assert(t.take(k).drop_last() =~= t.take(k - 1));
        let c = t[k - 1];
        assert(t.take(k).last() == c);
        assert(slug_char(c));
        if c == '-' {
            assert(k - 1 > 0);
            assert(!(t[k - 2] == '-' && t[k - 1] == '-'));
        }
        assert(t.take(k - 1).push(c) =~= t.take(k));
    }
}

/// A slug is its own slug, so making a slug twice changes nothing.
pub proof fn law_slug_idempotent(name: Seq<char>)
    ensures
        slug(slug(name)) == slug(name),
{
    law_slug_is_well_formed(name);
    let t = slug(name);
    lemma_slug_state_of_slug(t, t.len() as int);
    assert(t.take(t.len() as int) =~= t);
    let k = CharClass::Exactly('-');
    assert(strip_start(t, k) == t);
    assert(strip_end(t, k) == t);
}

/// The ASCII letters and digits of a text, in lowercase and in order.
pub open spec fn lowered_alnums(s: Seq<char>) -> Seq<char>
    decreases s.len(),
{
    if s.len() == 0 {
        s
    } else if is_alnum(s.last()) {
        lowered_alnums(s.drop_last()).push(lower_char(s.last()))
    } else {
        lowered_alnums(s.drop_last())
    }
}

/// A text without its hyphens.
pub open spec fn without_hyphens(s: Seq<char>) -> Seq<char>
    decreases s.len(),
{
    if s.len() == 0 {
        s
    } else if s.last() == '-' {
        without_hyphens(s.drop_last())
    } else {
        without_hyphens(s.drop_last()).push(s.last())
    }
}

proof fn lemma_slug_state_letters(s: Seq<char>)
    ensures
        without_hyphens(slug_state(s).0) == lowered_alnums(s),
    decreases s.len(),
{
    if s.len() > 0 {
        lemma_slug_state_letters(s.drop_last());
        let (prev, h) = slug_state(s.drop_last());
        let c = s.last();
        if is_alnum(c) {
            assert(prev.push(lower_char(c)).drop_last() =~= prev);
            assert(lower_char(c) != '-');
        } else if (c == ' ' || c == '-' || c == '_') && !h && prev.len() > 0 {
            assert(prev.push('-').drop_last() =~= prev);
        }
    }
}

proof fn lemma_only_hyphens(t: Seq<char>)
    requires
        without_hyphens(t).len() == 0,
    ensures
        forall|i: int| 0 <= i < t.len() ==> t[i] == '-',
    decreases t.len(),
{
    if t.len() > 0 {
        assert(t.last() == '-');
        lemma_only_hyphens(t.drop_last());
        assert forall|i: int| 0 <= i < t.len() implies t[i] == '-' by {
            if i < t.len() - 1 {
                assert(t[i] == t.drop_last()[i]);
            }
        }
    }
}

/// A slug holds the name's ASCII letters and digits, in lowercase and in order, and nothing
/// else but hyphens; a name without any is `seed`.
pub proof fn law_slug_keeps_letters_and_digits(name: Seq<char>)
    ensures
        lowered_alnums(name).len() == 0 ==> slug(name) == "seed"@,
        lowered_alnums(name).len() > 0 ==> without_hyphens(slug(name)) == lowered_alnums(name),
{
    lemma_slug_state_shape(name);
    lemma_slug_state_letters(name);
    let acc = slug_state(name).0;
    let k = CharClass::Exactly('-');
    assert(strip_start(acc, k) == acc);
    let t = strip(acc, k);
    if acc.len() > 0 && acc.last() == '-' {
        let d = acc.drop_last();
        assert(strip_end(acc, k) == strip_end(d, k));
        if d.len() > 0 {
            assert(d.last() == acc[acc.len() - 2]);
        }
        assert(strip_end(d, k) == d);
        assert(without_hyphens(t) == without_hyphens(acc));
    } else {
        assert(t == acc);
    }
    if t.len() > 0 {
        assert(t[0] == acc[0]);
        if without_hyphens(t).len() == 0 {
            lemma_only_hyphens(t);
        }
    }
}

/// The leading run of ASCII digits.
pub open spec fn leading_digits(s: Seq<char>) -> Seq<char>
    decreases s.len(),
{
    if s.len() > 0 && is_digit(s[0]) {
        seq![s[0]] + leading_digits(s.drop_first())
    } else {
        Seq::<char>::empty()
    }
}

/// The leading ASCII digits of a file name.
pub fn extract_numeric_prefix(name: &str) -> (r: String)
    ensures
        r@ == leading_digits(name@),
{
    let chars = chars_of(name);
    let mut i: usize = 0;
    assert(chars@.skip(0) =~= chars@);
    while i < chars.len() && ascii_digit(chars[i])
        invariant
            i <= chars.len(),
            chars@.take(i as int) + leading_digits(chars@.skip(i as int)) == leading_digits(chars@),
        decreases chars.len() - i,
    {
        assert(chars@.skip(i as int).drop_first() =~= chars@.skip(i + 1));
        assert(chars@.take(i + 1) =~= chars@.take(i as int) + seq![chars@[i as int]]);
        assert(chars@.take(i + 1) + leading_digits(chars@.skip(i + 1)) =~= chars@.take(i as int)
            + leading_digits(chars@.skip(i as int)));
        i = i + 1;
    }
    assert(chars@.take(i as int) + leading_digits(chars@.skip(i as int)) =~= chars@.take(i as int));
    let digits = slice_chars(&chars, 0, i);
    assert(digits@ =~= chars@.take(i as int));
    string_from_chars(&digits)
}


/// The largest sequence number that the file names start with (0 when none does): the value
/// of each name's leading digits that fits in `u32`.
pub open spec fn max_sequence(names: Seq<Seq<char>>) -> nat
    decreases names.len(),
{
    if names.len() == 0 {
        0
    } else {
        let m = max_sequence(names.drop_last());
        match digits_within(leading_digits(names.last()), u32::MAX as nat) {
            Some(v) => if v > m {
                v
            } else {
                m
            },
            None => m,
        }
    }
}

/// The widest run of leading digits among the file names (0 when none has any).
pub open spec fn max_width(names: Seq<Seq<char>>) -> nat
    decreases names.len(),
{
    if names.len() == 0 {
        0
    } else {
        let m = max_width(names.drop_last());
        let w = leading_digits(names.last()).len();
        if w > m {
            w
        } else {
            m
        }
    }
}

/// The sequence number and width of a new seed file: an explicit number keeps the requested
/// width (at least 1); otherwise the number after the largest one in the directory (capped at
/// `u32::MAX`), as wide as the widest existing number, the requested width, and 3.
pub open spec fn next_sequence(explicit: Option<u32>, requested_width: nat, names: Seq<Seq<char>>) -> (nat, nat) {
    match explicit {
        Some(n) => (n as nat, if requested_width > 1 {
            requested_width
        } else {
            1
        }),
        None => {
            let next = if max_sequence(names) + 1 > u32::MAX {
                u32::MAX as nat
            } else {
                max_sequence(names) + 1
            };
            let w1 = if max_width(names) > requested_width {
                max_width(names)
            } else {
                requested_width
            };
            (next, if w1 > 3 {
                w1
            } else {
                3
            })
        },
    }
}

/// The views of file names.
pub open spec fn name_views(names: Seq<String>) -> Seq<Seq<char>> {
    names.map_values(|n: String| n@)
}

/// The sequence number and width of a new seed file, given the names of the regular files in
/// its directory (which an explicit number does not need); see `next_sequence`.
pub fn resolve_sequence(explicit_number: Option<u32>, requested_width: usize, file_names: &Vec<String>) -> (r: (u32, usize))
    ensures
        (r.0 as nat, r.1 as nat) == next_sequence(explicit_number, requested_width as nat, name_views(file_names@)),
{
    if let Some(number) = explicit_number {
        let width = if requested_width > 1 { requested_width } else { 1 };
        return (number, width);
    }
    let ghost names = name_views(file_names@);
    let mut max_number: u32 = 0;
    let mut detected_width: usize = 0;
    for i in 0..file_names.len()
        invariant
            names == name_views(file_names@),
            max_number as nat == max_sequence(names.take(i as int)),
            detected_width as nat == max_width(names.take(i as int)),
    {
        assert(names.take(i + 1).drop_last() =~= names.take(i as int));
        assert(names.take(i + 1).last() == file_names@[i as int]@);
        let digits = string_chars(&extract_numeric_prefix(file_names[i].as_str()));
        if digits.len() > 0 {
            if digits.len() > detected_width {
                detected_width = digits.len();
            }
            match parse_digits(&digits, 0xffff_ffffu64) {
                Some(v) => {
                    if v > max_number as u64 {
                        max_number = v as u32;
                    }
                },
                None => {},
            }
        } else {
            assert(digits_within(digits@, u32::MAX as nat) is None);
        }
    }
    assert(names.take(file_names.len() as int) =~= names);
    let next = if max_number == u32::MAX { u32::MAX } else { max_number + 1 };
    let w1 = if detected_width > requested_width { detected_width } else { requested_width };
    let width = if w1 > 3 { w1 } else { 3 };
    (next, width)
}

/// A run of zeros.
pub open spec fn zeros(n: nat) -> Seq<char> {
    Seq::new(n, |i: int| '0')
}

/// The decimal digits of a number, padded with leading zeros to at least `width` characters.
pub open spec fn padded(n: nat, width: nat) -> Seq<char> {
    if decimal(n).len() < width {
        zeros((width - decimal(n).len()) as nat) + decimal(n)
    } else {
        decimal(n)
    }
}

/// The name of a new seed file: `{number, zero-padded to width}-{slug of name}.yaml`.
pub open spec fn seed_file_name_of(number: nat, width: nat, name: Seq<char>) -> Seq<char> {
    padded(number, width) + seq!['-'] + slug(name) + ".yaml"@
}

proof fn lemma_zeros_value(k: nat)
    ensures
        digits_value(zeros(k)) == 0,
        all_digits(zeros(k)),
    decreases k,
{
    if k > 0 {
        lemma_zeros_value((k - 1) as nat);
        assert(zeros(k).drop_last() =~= zeros((k - 1) as nat));
    }
}

proof fn lemma_value_after_zeros(z: Seq<char>, d: Seq<char>)
    requires
        digits_value(z) == 0,
    ensures
        digits_value(z + d) == digits_value(d),
    decreases d.len(),
{
    if d.len() == 0 {
        assert(z + d =~= z);
    } else {
        lemma_value_after_zeros(z, d.drop_last());
        assert((z + d).drop_last() =~= z + d.drop_last());
    }
}

proof fn lemma_leading_digits_prefix(a: Seq<char>, b: Seq<char>)
    requires
        all_digits(a),
    ensures
        leading_digits(a + b) == a + leading_digits(b),
    decreases a.len(),
{
    if a.len() == 0 {
        assert(a + b =~= b);
        assert(a + leading_digits(b) =~= leading_digits(b));
    } else {
        lemma_leading_digits_prefix(a.drop_first(), b);
        assert((a + b).drop_first() =~= a.drop_first() + b);
        assert((a + b)[0] == a[0]);
        assert(is_digit(a[0]));
        assert(a + leading_digits(b) =~= seq![a[0]] + (a.drop_first() + leading_digits(b)));
    }
}

proof fn lemma_padded(n: nat, width: nat)
    ensures
        all_digits(padded(n, width)),
        digits_value(padded(n, width)) == n,
        padded(n, width).len() >= width,
{
    lemma_decimal_digits(n);
    if decimal(n).len() < width {
        let z = zeros((width - decimal(n).len()) as nat);
        lemma_zeros_value((width - decimal(n).len()) as nat);
        lemma_value_after_zeros(z, decimal(n));
        assert forall|i: int| 0 <= i < padded(n, width).len() implies is_digit(#[trigger] padded(n, width)[i]) by {
            if i < z.len() {
                assert(padded(n, width)[i] == z[i]);
            } else {
                assert(padded(n, width)[i] == decimal(n)[i - z.len()]);
            }
        }
    }
}

/// A new seed file's name starts with its number, zero-padded to its width; once the file is
/// in its directory, the next automatic number there is greater (unless the number is
/// `u32::MAX`, which stays) and at least as wide.
pub proof fn law_next_sequence_follows_created_file(
    names: Seq<Seq<char>>,
    number: u32,
    width: nat,
    name: Seq<char>,
    requested_width: nat,
)
    ensures
        ({
            let file = seed_file_name_of(number as nat, width, name);
            let (next, next_width) = next_sequence(None, requested_width, names.push(file));
            &&& leading_digits(file) == padded(number as nat, width)
            &&& digits_value(leading_digits(file)) == number
            &&& number < u32::MAX ==> next > number
            &&& next_width >= width
        }),
{
    let file = seed_file_name_of(number as nat, width, name);
    let p = padded(number as nat, width);
    let rest = seq!['-'] + slug(name) + ".yaml"@;
    lemma_padded(number as nat, width);
    assert(file =~= p + rest);
    assert(leading_digits(rest) == Seq::<char>::empty()) by {
        assert(rest[0] == '-');
    }
    lemma_leading_digits_prefix(p, rest);
    assert(p + Seq::<char>::empty() =~= p);
    let all = names.push(file);
    assert(all.drop_last() =~= names);
    assert(all.last() == file);
    lemma_decimal_digits(number as nat);
    assert(digits_within(leading_digits(file), u32::MAX as nat) == Some(number as nat));
    assert(max_sequence(all) >= number);
    assert(max_width(all) >= p.len());
}

/// The name of a new seed file; see `seed_file_name_of`.
pub fn seed_file_name(number: u32, width: usize, name: &str) -> (r: String)
    ensures
        r@ == seed_file_name_of(number as nat, width as nat, name@),
{
    let digits = decimal_chars(number as u64);
    let mut out: Vec<char> = Vec::new();
    if digits.len() < width {
        let k = width - digits.len();
        for i in 0..k
            invariant
                out@ == zeros(i as nat),
        {
            out.push('0');
            assert(out@ =~= zeros((i + 1) as nat));
        }
    }
    push_all(&mut out, &digits);
    assert(out@ =~= padded(number as nat, width as nat));
    out.push('-');
    push_all(&mut out, &string_chars(&slugify(name)));
    push_all(&mut out, &chars_of(".yaml"));
    assert(out@ =~= seed_file_name_of(number as nat, width as nat, name@));
    string_from_chars(&out)
}

/// The contents of a new seed file.
pub fn seed_template() -> (r: &'static str)
    ensures
        r@ == "# yaml-seeder scaffold\nversion: 1\ntables: []\n"@,
{
    "# yaml-seeder scaffold\nversion: 1\ntables: []\n"
}

/// The byte `b` with ASCII capitals made lowercase.
pub open spec fn lower_byte(b: u8) -> u8 {
    if 65 <= b <= 90 {
        (b + 32) as u8
    } else {
        b
    }
}

/// The position of the last `b` in `s`, or -1 when there is none.
pub open spec fn last_index_of(s: Seq<u8>, b: u8) -> int
    decreases s.len(),
{
    if s.len() == 0 {
        -1
    } else if s.last() == b {
        s.len() - 1
    } else {
        last_index_of(s.drop_last(), b)
    }
}

/// The extension of a file name, as a path gives it: the bytes after the last dot, except
/// for `..`, for a name without a dot, and for a name whose only dot is its first byte.
pub open spec fn extension_of(name: Seq<u8>) -> Option<Seq<u8>> {
    let i = last_index_of(name, 46u8);
    if name == seq![46u8, 46u8] || i <= 0 {
        None
    } else {
        Some(name.skip(i + 1))
    }
}

/// Whether a file name has the extension `yaml` or `yml`, in any ASCII case.
pub open spec fn has_seed_extension(name: Seq<u8>) -> bool {
    match extension_of(name) {
        Some(ext) => {
            let lower = ext.map_values(|b: u8| lower_byte(b));
            lower == seq![121u8, 97u8, 109u8, 108u8] || lower == seq![121u8, 109u8, 108u8]
        },
        None => false,
    }
}

/// The names that have a seed file's extension, in their order.
pub open spec fn seed_names(names: Seq<Seq<u8>>) -> Seq<Seq<u8>>
    decreases names.len(),
{
    if names.len() == 0 {
        names
    } else if has_seed_extension(names.last()) {
        seed_names(names.drop_last()).push(names.last())
    } else {
        seed_names(names.drop_last())
    }
}

/// Byte-wise lexicographic order on names, a prefix first.
pub open spec fn bytes_le(a: Seq<u8>, b: Seq<u8>) -> bool
    decreases a.len(),
{
    if a.len() == 0 {
        true
    } else if b.len() == 0 {
        false
    } else if a[0] != b[0] {
        a[0] < b[0]
    } else {
        bytes_le(a.drop_first(), b.drop_first())
    }
}

/// The order in which seed files are applied.
pub open spec fn name_order() -> spec_fn(Seq<u8>, Seq<u8>) -> bool {
    |a: Seq<u8>, b: Seq<u8>| bytes_le(a, b)
}

proof fn lemma_bytes_le_reflexive(a: Seq<u8>)
    ensures
        bytes_le(a, a),
    decreases a.len(),
{
    if a.len() > 0 {
        lemma_bytes_le_reflexive(a.drop_first());
    }
}

proof fn lemma_bytes_le_antisymmetric(a: Seq<u8>, b: Seq<u8>)
    requires
        bytes_le(a, b),
        bytes_le(b, a),
    ensures
        a == b,
    decreases a.len(),
{
    if a.len() > 0 && b.len() > 0 {
        lemma_bytes_le_antisymmetric(a.drop_first(), b.drop_first());
        assert(a =~= seq![a[0]] + a.drop_first());
        assert(b =~= seq![b[0]] + b.drop_first());
    }
}

proof fn lemma_bytes_le_transitive(a: Seq<u8>, b: Seq<u8>, c: Seq<u8>)
    requires
        bytes_le(a, b),
        bytes_le(b, c),
    ensures
        bytes_le(a, c),
    decreases a.len(),
{
    if a.len() > 0 && b.len() > 0 && c.len() > 0 && a[0] == b[0] && b[0] == c[0] {
        lemma_bytes_le_transitive(a.drop_first(), b.drop_first(), c.drop_first());
    }
}

proof fn lemma_bytes_le_total(a: Seq<u8>, b: Seq<u8>)
    ensures
        bytes_le(a, b) || bytes_le(b, a),
    decreases a.len(),
{
    if a.len() > 0 && b.len() > 0 && a[0] == b[0] {
        lemma_bytes_le_total(a.drop_first(), b.drop_first());
    }
}

/// The order in which seed files are applied is a total order.
pub proof fn lemma_name_order_total()
    ensures
        total_ordering(name_order()),
{
    let r = name_order();
    assert forall|x: Seq<u8>| #[trigger] r(x, x) by {
        lemma_bytes_le_reflexive(x);
    }
    assert forall|x: Seq<u8>, y: Seq<u8>| #[trigger] r(x, y) && #[trigger] r(y, x) implies x == y by {
        lemma_bytes_le_antisymmetric(x, y);
    }
    assert forall|x: Seq<u8>, y: Seq<u8>, z: Seq<u8>| #[trigger] r(x, y) && #[trigger] r(y, z) implies r(x, z) by {
        lemma_bytes_le_transitive(x, y, z);
    }
    assert forall|x: Seq<u8>, y: Seq<u8>| #[trigger] r(x, y) || #[trigger] r(y, x) by {
        lemma_bytes_le_total(x, y);
    }
}

/// The views of byte strings.
pub open spec fn byte_views(names: Seq<Vec<u8>>) -> Seq<Seq<u8>> {
    names.map_values(|n: Vec<u8>| n@)
}

fn bytes_less_or_equal(a: &Vec<u8>, b: &Vec<u8>) -> (r: bool)
    ensures
        r == bytes_le(a@, b@),
{
    let mut i: usize = 0;
    assert(a@.skip(0) =~= a@);
    assert(b@.skip(0) =~= b@);
    while i < a.len() && i < b.len() && a[i] == b[i]
        invariant
            i <= a.len(),
            i <= b.len(),
            bytes_le(a@, b@) == bytes_le(a@.skip(i as int), b@.skip(i as int)),
        decreases a.len() - i,
    {
        assert(a@.skip(i as int).drop_first() =~= a@.skip(i + 1));
        assert(b@.skip(i as int).drop_first() =~= b@.skip(i + 1));
        i = i + 1;
    }
    if i == a.len() {
        true
    } else if i == b.len() {
        false
    } else {
        a[i] < b[i]
    }
}

fn is_seed_file_name(name: &Vec<u8>) -> (r: bool)
    ensures
        r == has_seed_extension(name@),
{
    let n = name.len();
    let mut i: usize = n;
    assert(name@.take(n as int) =~= name@);
    while i > 0 && name[i - 1] != 46u8
        invariant
            i <= n,
            n == name.len(),
            last_index_of(name@, 46u8) == last_index_of(name@.take(i as int), 46u8),
        decreases i,
    {
        assert(name@.take(i as int).drop_last() =~= name@.take(i - 1));
        i = i - 1;
    }
    if i > 0 {
        assert(name@.take(i as int).last() == 46u8);
    } else {
        assert(name@.take(0) =~= Seq::<u8>::empty());
    }
    let ghost dot = last_index_of(name@, 46u8);
    if n == 2 && name[0] == 46u8 && name[1] == 46u8 {
        assert(name@ =~= seq![46u8, 46u8]);
        return false;
    }
    assert(name@ != seq![46u8, 46u8]) by {
        if name@ == seq![46u8, 46u8] {
            assert(name@[0] == 46u8 && name@[1] == 46u8);
        }
    }
    if i <= 1 {
        return false;
    }
    assert(dot == i - 1);
    let start = i;
    let k = n - start;
    let ghost ext = name@.skip(start as int);
    let ghost lower = ext.map_values(|b: u8| lower_byte(b));
    if k != 4 && k != 3 {
        assert(lower.len() == k);
        return false;
    }
    let mut low: Vec<u8> = Vec::new();
    let mut j: usize = start;
    while j < n
        invariant
            start <= j <= n,
            n == name.len(),
            ext == name@.skip(start as int),
            lower == ext.map_values(|b: u8| lower_byte(b)),
            low@ =~= lower.take(j - start),
        decreases n - j,
    {
        let b = name[j];
        let l = if 65 <= b && b <= 90 { b + 32 } else { b };
        low.push(l);
        assert(low@ =~= lower.take(j + 1 - start));
        j = j + 1;
    }
    assert(lower.take(k as int) =~= lower);
    if k == 4 {
        let r = low[0] == 121u8 && low[1] == 97u8 && low[2] == 109u8 && low[3] == 108u8;
        assert(r == (lower == seq![121u8, 97u8, 109u8, 108u8])) by {
            if r {
                assert(lower =~= seq![121u8, 97u8, 109u8, 108u8]);
            }
        }
        r
    } else {
        let r = low[0] == 121u8 && low[1] == 109u8 && low[2] == 108u8;
        assert(r == (lower == seq![121u8, 109u8, 108u8])) by {
            if r {
                assert(lower =~= seq![121u8, 109u8, 108u8]);
            }
        }
        r
    }
}

/// The seed files of a directory, given the names of its regular files: those with the
/// extension `yaml` or `yml` (in any ASCII case), in byte-wise order of their names.
pub fn select_seed_files(names: Vec<Vec<u8>>) -> (r: Vec<Vec<u8>>)
    ensures
        byte_views(r@) == seed_names(byte_views(names@)).sort_by(name_order()),
{
    let ghost all = byte_views(names@);
    let mut kept: Vec<Vec<u8>> = Vec::new();
    let mut i: usize = 0;
    while i < names.len()
        invariant
            i <= names.len(),
            all == byte_views(names@),
            byte_views(kept@) == seed_names(all.take(i as int)),
        decreases names.len() - i,
    {
        assert(all.take(i + 1).drop_last() =~= all.take(i as int));
        assert(all.take(i + 1).last() == names@[i as int]@);
        let keep = is_seed_file_name(&names[i]);
        if keep {
            let name = names[i].clone();
            kept.push(name);
            assert(byte_views(kept@) =~= seed_names(all.take(i as int)).push(names@[i as int]@));
        }
        i = i + 1;
    }
    assert(all.take(names.len() as int) =~= all);
    let ghost wanted = seed_names(all);
    let mut sorted: Vec<Vec<u8>> = Vec::new();
    let mut m: usize = 0;
    proof {
        lemma_name_order_total();
        assert(byte_views(sorted@) =~= wanted.take(0));
    }
    while m < kept.len()
        invariant
            m <= kept.len(),
            byte_views(kept@) == wanted,
            total_ordering(name_order()),
            sorted_by(byte_views(sorted@), name_order()),
            byte_views(sorted@).to_multiset() == wanted.take(m as int).to_multiset(),
        decreases kept.len() - m,
    {
        let x = kept[m].clone();
        let ghost xs = byte_views(sorted@);
        let mut p: usize = 0;
        while p < sorted.len() && bytes_less_or_equal(&sorted[p], &x)
            invariant
                p <= sorted.len(),
                xs == byte_views(sorted@),
                forall|k: int| 0 <= k < p ==> bytes_le(#[trigger] xs[k], x@),
            decreases sorted.len() - p,
        {
            p = p + 1;
        }
        proof {
            if p < sorted.len() {
                lemma_bytes_le_total(xs[p as int], x@);
            }
        }
        sorted.insert(p, x);
        let ghost ys = byte_views(sorted@);
        assert(ys =~= xs.insert(p as int, x@));
        assert forall|a: int, b: int| 0 <= a < b < ys.len() implies #[trigger] name_order()(ys[a], ys[b]) by {
            if b < p {
                assert(ys[a] == xs[a] && ys[b] == xs[b]);
                assert(name_order()(xs[a], xs[b]));
            } else if b == p {
                assert(ys[a] == xs[a]);
            } else if a == p {
                assert(ys[b] == xs[b - 1]);
                if b - 1 > p {
                    assert(name_order()(xs[p as int], xs[b - 1]));
                    lemma_bytes_le_transitive(x@, xs[p as int], xs[b - 1]);
                }
            } else if a < p {
                assert(ys[a] == xs[a] && ys[b] == xs[b - 1]);
                assert(name_order()(xs[a], xs[b - 1]));
            } else {
                assert(ys[a] == xs[a - 1] && ys[b] == xs[b - 1]);
                assert(name_order()(xs[a - 1], xs[b - 1]));
            }
        }
        proof {
            to_multiset_insert(xs, p as int, x@);
            to_multiset_build(wanted.take(m as int), wanted[m as int]);
            assert(wanted.take(m + 1) =~= wanted.take(m as int).push(wanted[m as int]));
        }
        m = m + 1;
    }
    proof {
        assert(wanted.take(kept.len() as int) =~= wanted);
        wanted.lemma_sort_by_ensures(name_order());
        lemma_sorted_unique(byte_views(sorted@), wanted.sort_by(name_order()), name_order());
    }
    sorted
}

/// The bytes of a text whose characters are all ASCII.
pub open spec fn ascii_bytes(s: Seq<char>) -> Seq<u8> {
    s.map_values(|c: char| c as u8)
}

proof fn lemma_last_index_of_near_end(s: Seq<u8>, b: u8, k: int)
    requires
        0 <= k < s.len(),
        s[s.len() - 1 - k] == b,
        forall|j: int| s.len() - 1 - k < j < s.len() ==> s[j] != b,
    ensures
        last_index_of(s, b) == s.len() - 1 - k,
    decreases k,
{
    if k > 0 {
        let d = s.drop_last();
        assert forall|j: int| d.len() - 1 - (k - 1) < j < d.len() implies d[j] != b by {
            assert(d[j] == s[j]);
        }
        assert(d[d.len() - 1 - (k - 1)] == s[s.len() - 1 - k]);
        lemma_last_index_of_near_end(d, b, k - 1);
        assert(s.last() == s[s.len() - 1]);
    }
}

/// A file that `create` writes is one that `apply` picks up in its directory: its name is
/// ASCII and ends in `.yaml`, after a dot that is not its first character.
pub proof fn law_created_file_is_a_seed_file(number: u32, width: nat, name: Seq<char>)
    ensures
        ({
            let file = seed_file_name_of(number as nat, width, name);
            &&& forall|i: int| 0 <= i < file.len() ==> (#[trigger] file[i] as u32) < 128
            &&& has_seed_extension(ascii_bytes(file))
        }),
{
    let file = seed_file_name_of(number as nat, width, name);
    let p = padded(number as nat, width);
    let sl = slug(name);
    reveal_strlit(".yaml");
    lemma_padded(number as nat, width);
    lemma_decimal_digits(number as nat);
    law_slug_is_well_formed(name);
    let tail = ".yaml"@;
    assert(file =~= p + seq!['-'] + sl + tail);
    let n = file.len();
    let pl = p.len();
    assert(pl >= 1);
    assert forall|i: int| 0 <= i < n implies (#[trigger] file[i] as u32) < 128 by {
        if i < pl {
            assert(file[i] == p[i]);
            assert(is_digit(p[i]));
        } else if i == pl {
            assert(file[i] == '-');
        } else if i < pl + 1 + sl.len() {
            assert(file[i] == sl[i - pl - 1]);
            assert(slug_char(sl[i - pl - 1]));
        } else {
            assert(file[i] == tail[i - pl - 1 - sl.len()]);
        }
    }
    let bytes = ascii_bytes(file);
    assert(bytes.len() == n);
    assert(bytes[n - 5] == 46u8 && bytes[n - 4] == 121u8 && bytes[n - 3] == 97u8) by {
        assert(file[n - 5] == '.' && file[n - 4] == 'y' && file[n - 3] == 'a');
    }
    assert(bytes[n - 2] == 109u8 && bytes[n - 1] == 108u8) by {
        assert(file[n - 2] == 'm' && file[n - 1] == 'l');
    }
    lemma_last_index_of_near_end(bytes, 46u8, 4);
    assert(bytes != seq![46u8, 46u8]) by {
        assert(n >= 7);
    }
    let ext = bytes.skip(n - 4);
    assert(ext =~= seq![121u8, 97u8, 109u8, 108u8]);
    assert(ext.map_values(|b: u8| lower_byte(b)) =~= seq![121u8, 97u8, 109u8, 108u8]);
}

/// The largest sequence number and the widest prefix are those of some file name (or 0 when
/// there is none), and no file name has a larger number or a wider prefix.
pub proof fn law_largest_prefix(names: Seq<Seq<char>>)
    ensures
        forall|i: int|
            0 <= i < names.len() && digits_within(leading_digits(#[trigger] names[i]), u32::MAX as nat)
                is Some ==> digits_within(leading_digits(names[i]), u32::MAX as nat)->Some_0
                <= max_sequence(names),
        max_sequence(names) == 0 || exists|i: int|
            0 <= i < names.len() && digits_within(leading_digits(#[trigger] names[i]), u32::MAX as nat)
                == Some(max_sequence(names)),
        forall|i: int| 0 <= i < names.len() ==> leading_digits(#[trigger] names[i]).len() <= max_width(names),
        max_width(names) == 0 || exists|i: int|
            0 <= i < names.len() && leading_digits(#[trigger] names[i]).len() == max_width(names),
    decreases names.len(),
{
    if names.len() > 0 {
        let d = names.drop_last();
        law_largest_prefix(d);
        assert forall|i: int| 0 <= i < d.len() implies names[i] == #[trigger] d[i] by {}
        if max_sequence(names) != 0 && max_sequence(names) == max_sequence(d) {
            let i = choose|i: int|
                0 <= i < d.len() && digits_within(leading_digits(#[trigger] d[i]), u32::MAX as nat)
                    == Some(max_sequence(d));
            assert(names[i] == d[i]);
        }
        if max_sequence(names) != max_sequence(d) {
            assert(names[names.len() - 1] == names.last());
        }
        if max_width(names) != 0 && max_width(names) == max_width(d) {
            let i = choose|i: int| 0 <= i < d.len() && leading_digits(#[trigger] d[i]).len() == max_width(d);
            assert(names[i] == d[i]);
        }
        if max_width(names) != max_width(d) {
            assert(names[names.len() - 1] == names.last());
        }
        assert forall|i: int|
            0 <= i < names.len() && digits_within(leading_digits(#[trigger] names[i]), u32::MAX as nat)
                is Some implies digits_within(leading_digits(names[i]), u32::MAX as nat)->Some_0
                <= max_sequence(names) by {
            if i < d.len() {
                assert(names[i] == d[i]);
            }
        }
        assert forall|i: int| 0 <= i < names.len() implies leading_digits(#[trigger] names[i]).len()
            <= max_width(names) by {
            if i < d.len() {
                assert(names[i] == d[i]);
            }
        }
    }
}

proof fn lemma_seed_names_contains(names: Seq<Seq<u8>>, x: Seq<u8>)
    ensures
        seed_names(names).contains(x) <==> (names.contains(x) && has_seed_extension(x)),
    decreases names.len(),
{
    if names.len() > 0 {
        let d = names.drop_last();
        let l = names.last();
        lemma_seed_names_contains(d, x);
        let sn = seed_names(d);
        assert(names =~= d.push(l));
        assert(names.contains(x) <==> (d.contains(x) || x == l)) by {
            if names.contains(x) && x != l {
                let i = choose|i: int| 0 <= i < names.len() && names[i] == x;
                assert(d[i] == x);
            }
            if d.contains(x) {
                let i = choose|i: int| 0 <= i < d.len() && d[i] == x;
                assert(names[i] == x);
            }
            if x == l {
                assert(names[names.len() - 1] == x);
            }
        }
        if has_seed_extension(l) {
            assert(seed_names(names) == sn.push(l));
            assert(sn.push(l).contains(x) <==> (sn.contains(x) || x == l)) by {
                if sn.push(l).contains(x) && x != l {
                    let i = choose|i: int| 0 <= i < sn.push(l).len() && sn.push(l)[i] == x;
                    assert(sn[i] == x);
                }
                if sn.contains(x) {
                    let i = choose|i: int| 0 <= i < sn.len() && sn[i] == x;
                    assert(sn.push(l)[i] == x);
                }
                if x == l {
                    assert(sn.push(l)[sn.len() as int] == x);
                }
            }
        } else {
            assert(seed_names(names) == sn);
        }
    }
}

proof fn lemma_seed_names_distinct(names: Seq<Seq<u8>>)
    requires
        names.no_duplicates(),
    ensures
        seed_names(names).no_duplicates(),
    decreases names.len(),
{
    if names.len() > 0 {
        let d = names.drop_last();
        let l = names.last();
        assert(d.no_duplicates()) by {
            assert forall|i: int, j: int| 0 <= i < d.len() && 0 <= j < d.len() && i != j implies d[i]
                != d[j] by {
                assert(d[i] == names[i] && d[j] == names[j]);
            }
        }
        lemma_seed_names_distinct(d);
        let sn = seed_names(d);
        if has_seed_extension(l) {
            assert(!sn.contains(l)) by {
                lemma_seed_names_contains(d, l);
                if d.contains(l) {
                    let i = choose|i: int| 0 <= i < d.len() && d[i] == l;
                    assert(names[i] == names[names.len() - 1]);
                }
            }
            let p = sn.push(l);
            assert forall|i: int, j: int| 0 <= i < p.len() && 0 <= j < p.len() && i != j implies p[i] != p[j] by {
                if i < sn.len() && j < sn.len() {
                    assert(p[i] == sn[i] && p[j] == sn[j]);
                } else if i < sn.len() {
                    assert(sn.contains(p[i]));
                } else {
                    assert(sn.contains(p[j]));
                }
            }
            assert(seed_names(names) == p);
        } else {
            assert(seed_names(names) == sn);
        }
    }
}

/// The seed files chosen among distinct names are exactly the names with a seed file's
/// extension, in strictly increasing byte-wise order.
pub proof fn law_seed_files_chosen(names: Seq<Seq<u8>>)
    requires
        names.no_duplicates(),
    ensures
        ({
            let r = seed_names(names).sort_by(name_order());
            &&& forall|i: int, j: int|
                0 <= i < j < r.len() ==> bytes_le(#[trigger] r[i], #[trigger] r[j]) && r[i] != r[j]
            &&& forall|x: Seq<u8>|
                #[trigger] r.contains(x) <==> (names.contains(x) && has_seed_extension(x))
        }),
{
    let sn = seed_names(names);
    let r = sn.sort_by(name_order());
    lemma_name_order_total();
    sn.lemma_sort_by_ensures(name_order());
    lemma_seed_names_distinct(names);
    sn.lemma_multiset_has_no_duplicates();
    assert forall|x: Seq<u8>| r.to_multiset().contains(x) implies r.to_multiset().count(x) == 1 by {
        assert(sn.to_multiset().contains(x));
    }
    r.lemma_multiset_has_no_duplicates_conv();
    assert forall|x: Seq<u8>| #[trigger] r.contains(x) <==> (names.contains(x) && has_seed_extension(x)) by {
        to_multiset_contains(r, x);
        to_multiset_contains(sn, x);
        assert(r.to_multiset().count(x) == sn.to_multiset().count(x));
        lemma_seed_names_contains(names, x);
        assert(sn.contains(x) <==> (names.contains(x) && has_seed_extension(x)));
    }
    assert forall|i: int, j: int| 0 <= i < j < r.len() implies bytes_le(#[trigger] r[i], #[trigger] r[j])
        && r[i] != r[j] by {
        assert(name_order()(r[i], r[j]));
    }
}

} // verus!
