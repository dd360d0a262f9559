//! Character-level helpers on strings: substring search, case folding,
//! decimal and hexadecimal digits.

use vstd::prelude::*;

verus! {

/// `needle` occurs in `hay` as a contiguous run of characters.
pub open spec fn occurs_in(hay: Seq<char>, needle: Seq<char>) -> bool {
    exists|i: int|
        0 <= i && i + needle.len() <= hay.len() && #[trigger] hay.subrange(i, i + needle.len())
            == needle
}

/// What `str::to_lowercase` gives for a string: its Unicode lower-case mapping.
pub uninterp spec fn lowercase(s: Seq<char>) -> Seq<char>;

/// Calls `str::to_lowercase`: the result is the lower-case mapping of `s`,
/// which depends on `s` alone; the empty string maps to the empty string.
#[verifier::external_body]
pub fn to_lowercase(s: &str) -> (r: String)
    ensures
        r@ == lowercase(s@),
        s@.len() == 0 ==> r@.len() == 0,
{
    s.to_lowercase()
}

/// Calls `String::push`: appends one character.
#[verifier::external_body]
pub fn push_char(s: &mut String, c: char)
    ensures
        final(s)@ == old(s)@.push(c),
{
    s.push(c)
}

/// The characters of `s`, in order.
pub fn chars_of(s: &str) -> (v: Vec<char>)
    ensures
        v@ == s@,
{
    let mut v: Vec<char> = Vec::new();
    for c in it: s.chars()
        invariant
            v@ == it.seq().take(it.index()),
            it.seq() == s@,
    {
        v.push(c);
    }
    v
}

/// Whether `needle` matches `hay` at position `start`.
fn matches_at(hay: &Vec<char>, needle: &Vec<char>, start: usize) -> (b: bool)
    requires
        start + needle.len() <= hay.len(),
    ensures
        b == (hay@.subrange(start as int, start + needle.len()) == needle@),
{
    let mut j: usize = 0;
    while j < needle.len()
        invariant
            start + needle.len() <= hay.len(),
            j <= needle.len(),
            forall|k: int| 0 <= k < j ==> hay@[start + k] == needle@[k],
        decreases needle.len() - j,
    {
        if hay[start + j] != needle[j] {
            assert(hay@.subrange(start as int, start + needle.len())[j as int] != needle@[j as int]);
            return false;
        }
        j = j + 1;
    }
    assert(hay@.subrange(start as int, start + needle.len()) =~= needle@);
    true
}

/// Whether `needle` occurs in `hay`.
pub fn seq_occurs_in(hay: &Vec<char>, needle: &Vec<char>) -> (b: bool)
    ensures
        b == occurs_in(hay@, needle@),
{
    if needle.len() > hay.len() {
        return false;
    }
    let last = hay.len() - needle.len();
    let mut i: usize = 0;
    loop
        invariant
            last == hay.len() - needle.len(),
            needle.len() <= hay.len(),
            i <= last,
            forall|k: int|
                0 <= k < i ==> #[trigger] hay@.subrange(k, k + needle.len()) != needle@,
        decreases last - i,
    {
        if matches_at(hay, needle, i) {
            return true;
        }
        if i == last {
            return false;
        }
        i = i + 1;
    }
}

/// Whether `needle` occurs in `hay` (what `str::contains` answers for a
/// string pattern).
pub fn str_occurs_in(hay: &str, needle: &str) -> (b: bool)
    ensures
        b == occurs_in(hay@, needle@),
{
    let h = chars_of(hay);
    let n = chars_of(needle);
    seq_occurs_in(&h, &n)
}

/// The decimal digits of `n`, most significant first, with no leading zero
/// (and "0" for zero).
pub open spec fn decimal(n: nat) -> Seq<char>
    decreases n,
{
    if n < 10 {
        seq![digit_char(n)]
    } else {
        decimal(n / 10).push(digit_char(n % 10))
    }
}

/// The character of a decimal digit.
pub open spec fn digit_char(d: nat) -> char {
    if d == 0 { '0' }
    else if d == 1 { '1' }
    else if d == 2 { '2' }
    else if d == 3 { '3' }
    else if d == 4 { '4' }
    else if d == 5 { '5' }
    else if d == 6 { '6' }
    else if d == 7 { '7' }
    else if d == 8 { '8' }
    else { '9' }
}

fn digit(d: usize) -> (c: char)
    requires
        d < 10,
    ensures
        c == digit_char(d as nat),
{
    if d == 0 { '0' }
    else if d == 1 { '1' }
    else if d == 2 { '2' }
    else if d == 3 { '3' }
    else if d == 4 { '4' }
    else if d == 5 { '5' }
    else if d == 6 { '6' }
    else if d == 7 { '7' }
    else if d == 8 { '8' }
    else { '9' }
}

/// `n` written in decimal and left-padded with '0' to at least `width`
/// characters (what `{:0width$}` prints).
pub open spec fn zero_padded(n: nat, width: nat) -> Seq<char> {
    let d = decimal(n);
    if d.len() >= width {
        d
    } else {
        Seq::new((width - d.len()) as nat, |i: int| '0') + d
    }
}

/// The value of a decimal digit character (0 for any other character).
pub open spec fn digit_value(c: char) -> nat {
    if c == '1' { 1 }
    else if c == '2' { 2 }
    else if c == '3' { 3 }
    else if c == '4' { 4 }
    else if c == '5' { 5 }
    else if c == '6' { 6 }
    else if c == '7' { 7 }
    else if c == '8' { 8 }
    else if c == '9' { 9 }
    else { 0 }
}

/// The number a string of decimal digits stands for, most significant
/// digit first.
pub open spec fn digits_value(s: Seq<char>) -> nat
    decreases s.len(),
{
    if s.len() == 0 {
        0
    } else {
        digits_value(s.drop_last()) * 10 + digit_value(s.last())
    }
}

/// The decimal digits of `n` stand for `n`, and none of them is '_'.
pub proof fn lemma_decimal_value(n: nat)
    ensures
        digits_value(decimal(n)) == n,
        forall|i: int| 0 <= i < decimal(n).len() ==> #[trigger] decimal(n)[i] != '_',
    decreases n,
{
    if n < 10 {
        assert(decimal(n).drop_last() =~= Seq::<char>::empty());
        assert(digit_value(digit_char(n)) == n);
        assert(decimal(n).last() == digit_char(n));
        assert(digits_value(decimal(n)) == digits_value(decimal(n).drop_last()) * 10 + digit_value(decimal(n).last()));
    } else {
        lemma_decimal_value(n / 10);
        let d = decimal(n);
        assert(d.drop_last() =~= decimal(n / 10));
        assert(digit_value(digit_char(n % 10)) == n % 10);
        assert((n / 10) * 10 + n % 10 == n) by (nonlinear_arith);
        assert(d == decimal(n / 10).push(digit_char(n % 10)));
        assert(d.last() == digit_char(n % 10));
        assert(digits_value(d) == digits_value(d.drop_last()) * 10 + digit_value(d.last()));
        assert forall|i: int| 0 <= i < d.len() implies #[trigger] d[i] != '_' by {
            if i < d.len() - 1 {
                assert(d[i] == decimal(n / 10)[i]);
            }
        }
    }
}

/// Leading zeros do not change what digits stand for.
proof fn lemma_leading_zeros(k: nat, d: Seq<char>)
    ensures
        digits_value(Seq::new(k, |i: int| '0') + d) == digits_value(d),
    decreases d.len(), k,
{
    let z = Seq::new(k, |i: int| '0');
    if d.len() == 0 {
        assert(z + d =~= z);
        if k > 0 {
            lemma_leading_zeros((k - 1) as nat, d);
            assert(z.drop_last() =~= Seq::new((k - 1) as nat, |i: int| '0') + d);
        }
    } else {
        lemma_leading_zeros(k, d.drop_last());
        assert((z + d).drop_last() =~= z + d.drop_last());
    }
}

/// Zero-padded decimal stands for its number and holds no '_'.
pub proof fn lemma_zero_padded_value(n: nat, width: nat)
    ensures
        digits_value(zero_padded(n, width)) == n,
        forall|i: int| 0 <= i < zero_padded(n, width).len() ==> #[trigger] zero_padded(n, width)[i] != '_',
{
    lemma_decimal_value(n);
    let d = decimal(n);
    if d.len() < width {
        let k = (width - d.len()) as nat;
        lemma_leading_zeros(k, d);
        let z = zero_padded(n, width);
        assert forall|i: int| 0 <= i < z.len() implies #[trigger] z[i] != '_' by {
            if i >= k {
                assert(z[i] == d[i - k]);
            }
        }
    }
}

/// `n` in decimal.
pub fn format_decimal(n: usize) -> (s: String)
    ensures
        s@ == decimal(n as nat),
    decreases n,
{
    if n < 10 {
        let mut s = String::new();
        push_char(&mut s, digit(n));
        assert(s@ =~= decimal(n as nat));
        s
    } else {
        let mut s = format_decimal(n / 10);
        push_char(&mut s, digit(n % 10));
        s
    }
}

/// `n` in decimal, left-padded with '0' to `width` characters.
pub fn format_zero_padded(n: usize, width: usize) -> (s: String)
    ensures
        s@ == zero_padded(n as nat, width as nat),
{
    let digits = format_decimal(n);
    let len = digits.as_str().unicode_len();
    if len >= width {
        return digits;
    }
    let mut s = String::new();
    let mut i: usize = 0;
    while i < width - len
        invariant
            len < width,
            i <= width - len,
            s@ =~= Seq::new(i as nat, |k: int| '0'),
        decreases width - len - i,
    {
        push_char(&mut s, '0');
        i = i + 1;
    }
    s.append(digits.as_str());
    s
}

} // verus!

verus! {

/// Whether two strings hold the same characters.
pub fn str_eq(a: &str, b: &str) -> (r: bool)
    ensures
        r == (a@ == b@),
{
    let x = a.to_owned();
    let y = b.to_owned();
    x == y
}

/// A copy of an optional string.
pub fn clone_opt_string(s: &Option<String>) -> (r: Option<String>)
    ensures
        r == *s,
{
    match s {
        Some(x) => Some(x.clone()),
        None => None,
    }
}

/// A copy of a list of strings.
pub fn clone_strings(v: &Vec<String>) -> (r: Vec<String>)
    ensures
        r@ == v@,
{
    let mut r: Vec<String> = Vec::new();
    let mut i: usize = 0;
    while i < v.len()
        invariant
            i <= v.len(),
            r@ == v@.take(i as int),
        decreases v.len() - i,
    {
        r.push(v[i].clone());
        i = i + 1;
        assert(r@ =~= v@.take(i as int));
    }
    assert(v@.take(v.len() as int) =~= v@);
    r
}

/// The views of a list of strings.
pub open spec fn views(v: Seq<String>) -> Seq<Seq<char>> {
    v.map_values(|s: String| s@)
}

/// The items of `list` joined with `sep` between consecutive items.
pub open spec fn joined(list: Seq<Seq<char>>, sep: Seq<char>) -> Seq<char>
    decreases list.len(),
{
    if list.len() == 0 {
        Seq::empty()
    } else if list.len() == 1 {
        list[0]
    } else {
        joined(list.drop_last(), sep) + sep + list.last()
    }
}

/// The strings of `list` joined with `sep` (what `join` on a slice gives).
pub fn join_strings(list: &Vec<String>, sep: &str) -> (r: String)
    ensures
        r@ == joined(views(list@), sep@),
{
    let mut r = String::new();
    let ghost all = views(list@);
    let mut i: usize = 0;
    while i < list.len()
        invariant
            i <= list.len(),
            all == views(list@),
            r@ == joined(all.take(i as int), sep@),
        decreases list.len() - i,
    {
        assert(all.take(i + 1).drop_last() =~= all.take(i as int));
        if i != 0 {
            r.append(sep);
        }
        r.append(list[i].as_str());
        i = i + 1;
    }
    assert(all.take(list.len() as int) =~= all);
    r
}

} // verus!

verus! {

/// `a` comes strictly before `b` in lexicographic order of characters
/// (the order `Ord` gives `str`, since UTF-8 keeps code point order).
pub open spec fn lex_lt(a: Seq<char>, b: Seq<char>) -> bool {
    exists|k: int|
        0 <= k <= a.len() && k <= b.len() && #[trigger] a.take(k) == b.take(k) && ((k < a.len()
            && k < b.len() && a[k] < b[k]) || (k == a.len() && k < b.len()))
}

/// Where `a` and `b` first differ at position `k`, the order is decided there.
proof fn lemma_lex_at(a: Seq<char>, b: Seq<char>, k: int)
    requires
        0 <= k <= a.len(),
        k <= b.len(),
        a.take(k) == b.take(k),
        k == a.len() || k == b.len() || a[k] != b[k],
    ensures
        lex_lt(a, b) <==> ((k < a.len() && k < b.len() && a[k] < b[k]) || (k
            == a.len() && k < b.len())),
        lex_lt(b, a) <==> ((k < a.len() && k < b.len() && b[k] < a[k]) || (k
            == b.len() && k < a.len())),
{
    lemma_lex_witness(a, b, k);
    assert(b.take(k) == a.take(k));
    lemma_lex_witness(b, a, k);
}

proof fn lemma_lex_witness(a: Seq<char>, b: Seq<char>, k: int)
    requires
        0 <= k <= a.len(),
        k <= b.len(),
        a.take(k) == b.take(k),
        k == a.len() || k == b.len() || a[k] != b[k],
    ensures
        lex_lt(a, b) <==> ((k < a.len() && k < b.len() && a[k] < b[k]) || (k
            == a.len() && k < b.len())),
{
    if lex_lt(a, b) {
        let j = choose|j: int|
            0 <= j <= a.len() && j <= b.len() && #[trigger] a.take(j) == b.take(j) && ((j
                < a.len() && j < b.len() && a[j] < b[j]) || (j == a.len() && j
                < b.len()));
        if j < k {
            assert(a[j] == a.take(k)[j]);
            assert(b[j] == b.take(k)[j]);
        } else if j > k {
            assert(a[k] == a.take(j)[k]);
            assert(b[k] == b.take(j)[k]);
        }
    }
    if (k < a.len() && k < b.len() && a[k] < b[k]) || (k == a.len() && k
        < b.len()) {
        assert(a.take(k) == b.take(k));
    }
}

/// Compares `a` and `b` lexicographically: negative when `a` comes first,
/// zero when equal, positive when `b` comes first.
pub fn lex_compare(a: &Vec<char>, b: &Vec<char>) -> (r: i8)
    ensures
        r < 0 <==> lex_lt(a@, b@),
        r > 0 <==> lex_lt(b@, a@),
        r == 0 <==> a@ == b@,
{
    let mut k: usize = 0;
    while k < a.len() && k < b.len() && a[k] == b[k]
        invariant
            k <= a.len(),
            k <= b.len(),
            a@.take(k as int) == b@.take(k as int),
        decreases a.len() - k,
    {
        assert(a@.take(k + 1) =~= a@.take(k as int).push(a@[k as int]));
        assert(b@.take(k + 1) =~= b@.take(k as int).push(b@[k as int]));
        k = k + 1;
    }
    proof {
        lemma_lex_at(a@, b@, k as int);
        if k == a.len() && k == b.len() {
            assert(a@ =~= a@.take(k as int));
            assert(b@ =~= b@.take(k as int));
        }
        if k < a.len() && k < b.len() {
            assert(a@[k as int] != b@[k as int]);
        }
    }
    if k < a.len() && k < b.len() {
        if a[k] < b[k] {
            -1
        } else {
            1
        }
    } else if k == a.len() && k < b.len() {
        -1
    } else if k == b.len() && k < a.len() {
        1
    } else {
        0
    }
}

} // verus!

verus! {

/// Whether some string of `v` holds the characters of `s`.
pub fn strings_contain(v: &Vec<String>, s: &String) -> (r: bool)
    ensures
        r == views(v@).contains(s@),
{
    let mut i: usize = 0;
    while i < v.len()
        invariant
            i <= v.len(),
            forall|j: int| 0 <= j < i ==> #[trigger] v@[j]@ != s@,
        decreases v.len() - i,
    {
        if v[i] == *s {
            assert(views(v@)[i as int] == s@);
            return true;
        }
        i = i + 1;
    }
    assert(!views(v@).contains(s@)) by {
        if views(v@).contains(s@) {
            let j = choose|j: int| 0 <= j < views(v@).len() && views(v@)[j] == s@;
            assert(v@[j]@ == s@);
        }
    }
    false
}

} // verus!

verus! {

/// `s` ends with `suffix`.
pub open spec fn ends_with(s: Seq<char>, suffix: Seq<char>) -> bool {
    suffix.len() <= s.len() && s.subrange(s.len() - suffix.len(), s.len() as int) == suffix
}

/// `s` starts with `prefix`.
pub open spec fn starts_with(s: Seq<char>, prefix: Seq<char>) -> bool {
    prefix.len() <= s.len() && s.subrange(0, prefix.len() as int) == prefix
}

/// Whether `s` ends with `suffix`.
pub fn str_ends_with(s: &str, suffix: &str) -> (r: bool)
    ensures
        r == ends_with(s@, suffix@),
{
    let a = chars_of(s);
    let b = chars_of(suffix);
    if b.len() > a.len() {
        return false;
    }
    let off = a.len() - b.len();
    let mut i: usize = 0;
    while i < b.len()
        invariant
            a@ == s@,
            b@ == suffix@,
            off == a@.len() - b@.len(),
            b@.len() <= a@.len(),
            a@.len() == a.len(),
            i <= b@.len(),
            forall|j: int| 0 <= j < i ==> a@[off + j] == b@[j],
        decreases b@.len() - i,
    {
        if a[off + i] != b[i] {
            assert(a@.subrange(off as int, a@.len() as int)[i as int] != b@[i as int]);
            return false;
        }
        i = i + 1;
    }
    assert(a@.subrange(off as int, a@.len() as int) =~= b@);
    true
}

/// Whether `s` starts with `prefix`.
pub fn str_starts_with(s: &str, prefix: &str) -> (r: bool)
    ensures
        r == starts_with(s@, prefix@),
{
    let a = chars_of(s);
    let b = chars_of(prefix);
    if b.len() > a.len() {
        return false;
    }
    let mut i: usize = 0;
    while i < b.len()
        invariant
            a@ == s@,
            b@ == prefix@,
            b@.len() <= a@.len(),
            i <= b@.len(),
            forall|j: int| 0 <= j < i ==> a@[j] == b@[j],
        decreases b@.len() - i,
    {
        if a[i] != b[i] {
            assert(a@.subrange(0, b@.len() as int)[i as int] != b@[i as int]);
            return false;
        }
        i = i + 1;
    }
    assert(a@.subrange(0, b@.len() as int) =~= b@);
    true
}

/// The pieces of `s` between occurrences of `sep`: joined with `sep` they
/// give `s` back, and none holds `sep`.
pub open spec fn is_split(s: Seq<char>, sep: char, pieces: Seq<Seq<char>>) -> bool {
    &&& pieces.len() >= 1
    &&& joined(pieces, seq![sep]) == s
    &&& forall|i: int| 0 <= i < pieces.len() ==> !(#[trigger] pieces[i]).contains(sep)
}

/// A string of the characters `cs`.
fn string_of(cs: &Vec<char>, from: usize, to: usize) -> (r: String)
    requires
        from <= to <= cs@.len(),
    ensures
        r@ == cs@.subrange(from as int, to as int),
{
    let mut r = String::new();
    let mut i: usize = from;
    while i < to
        invariant
            from <= i <= to,
            to <= cs@.len(),
            r@ == cs@.subrange(from as int, i as int),
        decreases to - i,
    {
        push_char(&mut r, cs[i]);
        i = i + 1;
        assert(r@ =~= cs@.subrange(from as int, i as int));
    }
    r
}

/// `s` cut at each occurrence of `sep` (what `str::split` gives for a
/// character).
pub fn split_on(s: &str, sep: char) -> (r: Vec<String>)
    ensures
        is_split(s@, sep, views(r@)),
{
    let cs = chars_of(s);
    let mut r: Vec<String> = Vec::new();
    let mut start: usize = 0;
    let mut i: usize = 0;
    while i < cs.len()
        invariant
            cs@ == s@,
            start <= i <= cs@.len(),
            r@.len() == 0 ==> start == 0,
            r@.len() > 0 ==> joined(views(r@), seq![sep]) + seq![sep] == cs@.subrange(0, start as int),
            forall|k: int| 0 <= k < r@.len() ==> !(#[trigger] views(r@)[k]).contains(sep),
            !cs@.subrange(start as int, i as int).contains(sep),
        decreases cs@.len() - i,
    {
        if cs[i] == sep {
            let piece = string_of(&cs, start, i);
            let ghost before = views(r@);
            r.push(piece);
            proof {
                let after = views(r@);
                assert(after =~= before.push(piece@));
                assert(after.drop_last() =~= before);
                if before.len() == 0 {
                    assert(joined(after, seq![sep]) == piece@);
                    assert(piece@ + seq![sep] =~= cs@.subrange(0, i + 1));
                } else {
                    assert(joined(after, seq![sep]) == joined(before, seq![sep]) + seq![sep] + piece@);
                    assert(cs@.subrange(0, i + 1) =~= cs@.subrange(0, start as int) + cs@.subrange(start as int, i as int) + seq![sep]);
                }
                assert forall|k: int| 0 <= k < after.len() implies !(#[trigger] after[k]).contains(sep) by {
                    if k < before.len() {
                        assert(after[k] == before[k]);
                    }
                }
            }
            start = i + 1;
            assert(cs@.subrange(start as int, start as int) =~= Seq::<char>::empty());
        } else {
            proof {
                assert(cs@.subrange(start as int, i + 1) =~= cs@.subrange(start as int, i as int).push(cs@[i as int]));
                let ghost seg = cs@.subrange(start as int, i + 1);
                let ghost prev = cs@.subrange(start as int, i as int);
                assert(!seg.contains(sep)) by {
                    if seg.contains(sep) {
                        let k = choose|k: int| 0 <= k < seg.len() && #[trigger] seg[k] == sep;
                        if k < prev.len() {
                            assert(prev[k] == sep);
                        }
                    }
                }
            }
        }
        i = i + 1;
    }
    let last = string_of(&cs, start, cs.len());
    let ghost before = views(r@);
    r.push(last);
    proof {
        let after = views(r@);
        assert(after =~= before.push(last@));
        assert(after.drop_last() =~= before);
        if before.len() == 0 {
            assert(cs@.subrange(0, cs@.len() as int) =~= cs@);
        } else {
            assert(cs@ =~= cs@.subrange(0, start as int) + cs@.subrange(start as int, cs@.len() as int));
        }
        assert forall|k: int| 0 <= k < after.len() implies !(#[trigger] after[k]).contains(sep) by {
            if k < before.len() {
                assert(after[k] == before[k]);
            }
        }
    }
    r
}

/// `s` without any trailing `c`.
pub open spec fn trim_end(s: Seq<char>, c: char) -> Seq<char>
    decreases s.len(),
{
    if s.len() > 0 && s.last() == c {
        trim_end(s.drop_last(), c)
    } else {
        s
    }
}

/// `s` with every trailing `c` removed (what `trim_end_matches` gives for a
/// character).
pub fn trim_end_char(s: &str, c: char) -> (r: String)
    ensures
        r@ == trim_end(s@, c),
{
    let cs = chars_of(s);
    let mut n: usize = cs.len();
    assert(cs@.subrange(0, n as int) =~= cs@);
    while n > 0 && cs[n - 1] == c
        invariant
            n <= cs@.len(),
            cs@ == s@,
            trim_end(cs@.subrange(0, n as int), c) == trim_end(s@, c),
        decreases n,
    {
        assert(cs@.subrange(0, n as int).drop_last() =~= cs@.subrange(0, n - 1));
        n = n - 1;
    }
    assert(cs@.subrange(0, cs@.len() as int) =~= cs@);
    string_of(&cs, 0, n)
}

/// A white-space character (Unicode `White_Space`, as `char::is_whitespace`
/// has it).
pub open spec fn is_white(c: char) -> bool {
    ||| c == '\t' || c == '\n' || c == '\u{0B}' || c == '\u{0C}' || c == '\r' || c == ' '
    ||| c == '\u{85}' || c == '\u{A0}' || c == '\u{1680}'
    ||| ('\u{2000}' <= c && c <= '\u{200A}')
    ||| c == '\u{2028}' || c == '\u{2029}' || c == '\u{202F}' || c == '\u{205F}' || c == '\u{3000}'
}

fn white(c: char) -> (r: bool)
    ensures
        r == is_white(c),
{
    c == '\t' || c == '\n' || c == '\u{0B}' || c == '\u{0C}' || c == '\r' || c == ' ' || c == '\u{85}'
        || c == '\u{A0}' || c == '\u{1680}' || ('\u{2000}' <= c && c <= '\u{200A}') || c == '\u{2028}'
        || c == '\u{2029}' || c == '\u{202F}' || c == '\u{205F}' || c == '\u{3000}'
}

/// `s` without its leading and trailing white space.
pub open spec fn trimmed(s: Seq<char>) -> Seq<char>
    decreases s.len(),
{
    if s.len() > 0 && is_white(s[0]) {
        trimmed(s.drop_first())
    } else if s.len() > 0 && is_white(s.last()) {
        trimmed(s.drop_last())
    } else {
        s
    }
}

/// `s` without its leading and trailing white space (what `str::trim`
/// gives).
pub fn trim(s: &str) -> (r: String)
    ensures
        r@ == trimmed(s@),
{
    let cs = chars_of(s);
    let mut lo: usize = 0;
    let mut hi: usize = cs.len();
    assert(cs@.subrange(0, hi as int) =~= cs@);
    while lo < hi && white(cs[lo])
        invariant
            lo <= hi == cs@.len(),
            cs@ == s@,
            trimmed(cs@.subrange(lo as int, hi as int)) == trimmed(s@),
        decreases hi - lo,
    {
        assert(cs@.subrange(lo as int, hi as int).drop_first() =~= cs@.subrange(lo + 1, hi as int));
        lo = lo + 1;
    }
    while lo < hi && white(cs[hi - 1])
        invariant
            lo <= hi <= cs@.len(),
            cs@ == s@,
            lo < hi ==> !is_white(cs@[lo as int]),
            trimmed(cs@.subrange(lo as int, hi as int)) == trimmed(s@),
        decreases hi - lo,
    {
        let ghost sub = cs@.subrange(lo as int, hi as int);
        assert(sub[0] == cs@[lo as int]);
        assert(sub.last() == cs@[hi - 1]);
        assert(sub.drop_last() =~= cs@.subrange(lo as int, hi - 1));
        hi = hi - 1;
    }
    proof {
        let sub = cs@.subrange(lo as int, hi as int);
        if lo < hi {
            assert(sub[0] == cs@[lo as int]);
            assert(sub.last() == cs@[hi - 1]);
        }
    }
    string_of(&cs, lo, hi)
}

} // verus!
