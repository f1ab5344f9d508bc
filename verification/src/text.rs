//! Text helpers over the character view of strings.
//!
//! Every function here is specified over `Seq<char>`. Where an operation is
//! defined over UTF-8 bytes (a byte range taken out of an identifier), the
//! specification counts encoded bytes per character, so that it agrees with
//! byte ranges on every string.

use vstd::prelude::*;

verus! {

/// `String::push` appends one character.
pub assume_specification[ String::push ](s: &mut String, c: char)
    ensures
        final(s)@ == old(s)@.push(c),
;

/// What `str::to_lowercase` returns for a text that is not empty: the
/// Unicode lowercase mapping of the whole text, which may change its length.
pub uninterp spec fn lowercase_mapping(s: Seq<char>) -> Seq<char>;

/// What `str::to_uppercase` returns for a text that is not empty: the
/// Unicode uppercase mapping of the whole text, which may change its length.
pub uninterp spec fn uppercase_mapping(s: Seq<char>) -> Seq<char>;

/// What `char::is_whitespace` returns beyond ASCII: whether the character
/// has the Unicode property `White_Space`.
pub uninterp spec fn unicode_whitespace(c: char) -> bool;

/// `s` in lower case. The empty text stays empty.
pub open spec fn lowercase(s: Seq<char>) -> Seq<char> {
    if s.len() == 0 {
        Seq::empty()
    } else {
        lowercase_mapping(s)
    }
}

/// `s` in upper case. The empty text stays empty.
pub open spec fn uppercase(s: Seq<char>) -> Seq<char> {
    if s.len() == 0 {
        Seq::empty()
    } else {
        uppercase_mapping(s)
    }
}

/// Whether `c` is whitespace. In ASCII these are the blank and the five
/// control characters from tab to carriage return.
pub open spec fn is_whitespace(c: char) -> bool {
    if (c as int) < 0x80 {
        (0x09 <= (c as int) <= 0x0d) || (c as int) == 0x20
    } else {
        unicode_whitespace(c)
    }
}

/// `str::to_lowercase` is a function of the text alone, and gives the empty
/// text for the empty text.
pub assume_specification[ str::to_lowercase ](s: &str) -> (r: String)
    ensures
        r@ == lowercase(s@),
        s@.len() > 0 ==> r@ == lowercase_mapping(s@),
;

/// `str::to_uppercase` is a function of the text alone, and gives the empty
/// text for the empty text.
pub assume_specification[ str::to_uppercase ](s: &str) -> (r: String)
    ensures
        r@ == uppercase(s@),
        s@.len() > 0 ==> r@ == uppercase_mapping(s@),
;

/// `char::is_whitespace` is a function of the character alone. In ASCII it
/// holds of the blank and of the characters from tab to carriage return and
/// of no other.
pub assume_specification[ char::is_whitespace ](c: char) -> (r: bool)
    ensures
        r == is_whitespace(c),
        (c as int) >= 0x80 ==> r == unicode_whitespace(c),
;

/// The characters of `s`, in order.
pub fn chars_of(s: &str) -> (out: Vec<char>)
    ensures
        out@ == s@,
{
    let mut out: Vec<char> = Vec::new();
    for c in it: s.chars()
        invariant
            it.seq() == s@,
            out@ == it.seq().subrange(0, it.index() as int),
    {
        out.push(c);
    }
    assert(out@ == s@);
    out
}

/// The text made of the characters `v[from..to]`.
pub fn text_of_range(v: &Vec<char>, from: usize, to: usize) -> (out: String)
    requires
        from <= to <= v.len(),
    ensures
        out@ == v@.subrange(from as int, to as int),
{
    let mut out = String::new();
    let mut i: usize = from;
    while i < to
        invariant
            from <= i <= to <= v.len(),
            out@ == v@.subrange(from as int, i as int),
        decreases to - i,
    {
        out.push(v[i]);
        i = i + 1;
    }
    out
}

/// The text made of the characters of `v`.
pub fn text_of(v: &Vec<char>) -> (out: String)
    ensures
        out@ == v@,
{
    let out = text_of_range(v, 0, v.len());
    assert(v@.subrange(0, v.len() as int) == v@);
    out
}

/// Whether two texts hold the same characters.
pub fn same_text(a: &str, b: &str) -> (r: bool)
    ensures
        r == (a@ == b@),
{
    let x = a.to_owned();
    let y = b.to_owned();
    x == y
}

/// `needle` stands in `hay` at character position `i`.
pub open spec fn occurs_at(hay: Seq<char>, needle: Seq<char>, i: int) -> bool {
    &&& 0 <= i
    &&& i + needle.len() <= hay.len()
    &&& hay.subrange(i, i + needle.len()) == needle
}

/// `needle` stands somewhere in `hay`.
pub open spec fn contains_text(hay: Seq<char>, needle: Seq<char>) -> bool {
    exists|i: int| occurs_at(hay, needle, i)
}

/// `i` is the leftmost position at which `needle` stands in `hay`.
pub open spec fn is_first_occurrence(hay: Seq<char>, needle: Seq<char>, i: int) -> bool {
    &&& occurs_at(hay, needle, i)
    &&& forall|j: int| 0 <= j < i ==> !occurs_at(hay, needle, j)
}

/// `i` is the rightmost position at which `needle` stands in `hay`.
pub open spec fn is_last_occurrence(hay: Seq<char>, needle: Seq<char>, i: int) -> bool {
    &&& occurs_at(hay, needle, i)
    &&& forall|j: int| i < j ==> !occurs_at(hay, needle, j)
}

/// The leftmost position at which `needle` stands in `hay`.
pub open spec fn first_occurrence(hay: Seq<char>, needle: Seq<char>) -> Option<int> {
    if contains_text(hay, needle) {
        Some(choose|i: int| is_first_occurrence(hay, needle, i))
    } else {
        None
    }
}

/// The rightmost position at which `needle` stands in `hay`.
pub open spec fn last_occurrence(hay: Seq<char>, needle: Seq<char>) -> Option<int> {
    if contains_text(hay, needle) {
        Some(choose|i: int| is_last_occurrence(hay, needle, i))
    } else {
        None
    }
}

/// A leftmost occurrence is the leftmost occurrence.
pub proof fn lemma_first_occurrence(hay: Seq<char>, needle: Seq<char>, i: int)
    requires
        is_first_occurrence(hay, needle, i),
    ensures
        first_occurrence(hay, needle) == Some(i),
{
    assert(occurs_at(hay, needle, i));
    let j = choose|j: int| is_first_occurrence(hay, needle, j);
    assert(is_first_occurrence(hay, needle, j));
    if j < i {
        assert(!occurs_at(hay, needle, j));
    }
    if i < j {
        assert(!occurs_at(hay, needle, i));
    }
}

/// A rightmost occurrence is the rightmost occurrence.
pub proof fn lemma_last_occurrence(hay: Seq<char>, needle: Seq<char>, i: int)
    requires
        is_last_occurrence(hay, needle, i),
    ensures
        last_occurrence(hay, needle) == Some(i),
{
    assert(occurs_at(hay, needle, i));
    let j = choose|j: int| is_last_occurrence(hay, needle, j);
    assert(is_last_occurrence(hay, needle, j));
    if j < i {
        assert(!occurs_at(hay, needle, i));
    }
    if i < j {
        assert(!occurs_at(hay, needle, j));
    }
}

/// Whether `needle` stands in `hay` at position `i`.
pub fn matches_at(hay: &Vec<char>, needle: &Vec<char>, i: usize) -> (r: bool)
    ensures
        r == occurs_at(hay@, needle@, i as int),
{
    if i > hay.len() || needle.len() > hay.len() - i {
        return false;
    }
    let mut k: usize = 0;
    while k < needle.len()
        invariant
            i + needle.len() <= hay.len(),
            k <= needle.len(),
            forall|j: int| 0 <= j < k ==> hay@[i + j] == needle@[j],
        decreases needle.len() - k,
    {
        if hay[i + k] != needle[k] {
            assert(hay@.subrange(i as int, i + needle.len())[k as int] == hay@[i + k]);
            return false;
        }
        k = k + 1;
    }
    assert(hay@.subrange(i as int, i + needle.len()) =~= needle@);
    true
}

/// The leftmost position at which `needle` stands in `hay`.
pub fn find(hay: &Vec<char>, needle: &Vec<char>) -> (r: Option<usize>)
    ensures
        match r {
            Some(i) => is_first_occurrence(hay@, needle@, i as int) && first_occurrence(
                hay@,
                needle@,
            ) == Some(i as int) && i + needle@.len() <= usize::MAX,
            None => !contains_text(hay@, needle@),
        },
{
    if needle.len() > hay.len() {
        return None;
    }
    let last: usize = hay.len() - needle.len();
    let mut i: usize = 0;
    loop
        invariant
            last == hay.len() - needle.len(),
            i <= last,
            forall|j: int| 0 <= j < i ==> !occurs_at(hay@, needle@, j),
        decreases last - i,
    {
        if matches_at(hay, needle, i) {
            proof {
                lemma_first_occurrence(hay@, needle@, i as int);
            }
            return Some(i);
        }
        if i == last {
            return None;
        }
        i = i + 1;
    }
}

/// The rightmost position at which `needle` stands in `hay`.
pub fn rfind(hay: &Vec<char>, needle: &Vec<char>) -> (r: Option<usize>)
    ensures
        match r {
            Some(i) => is_last_occurrence(hay@, needle@, i as int) && last_occurrence(
                hay@,
                needle@,
            ) == Some(i as int) && i + needle@.len() <= usize::MAX,
            None => !contains_text(hay@, needle@),
        },
{
    if needle.len() > hay.len() {
        return None;
    }
    let mut i: usize = hay.len() - needle.len();
    loop
        invariant
            i <= hay.len() - needle.len(),
            forall|j: int| i < j ==> !occurs_at(hay@, needle@, j),
        decreases i,
    {
        if matches_at(hay, needle, i) {
            proof {
                lemma_last_occurrence(hay@, needle@, i as int);
            }
            return Some(i);
        }
        if i == 0 {
            return None;
        }
        i = i - 1;
    }
}

/// Whether `needle` stands somewhere in `hay`.
pub fn contains(hay: &Vec<char>, needle: &Vec<char>) -> (r: bool)
    ensures
        r == contains_text(hay@, needle@),
{
    find(hay, needle).is_some()
}

/// Whether the text `needle` stands somewhere in the text `hay`.
pub fn str_contains(hay: &str, needle: &str) -> (r: bool)
    ensures
        r == contains_text(hay@, needle@),
{
    let h = chars_of(hay);
    let n = chars_of(needle);
    contains(&h, &n)
}

/// What follows the rightmost occurrence of `sep`; all of `hay` where `sep`
/// does not occur.
pub open spec fn after_last(hay: Seq<char>, sep: Seq<char>) -> Seq<char> {
    match last_occurrence(hay, sep) {
        Some(i) => hay.skip(i + sep.len()),
        None => hay,
    }
}

/// What follows the rightmost occurrence of `sep` in `hay`.
pub fn tail_after_last(hay: &Vec<char>, sep: &Vec<char>) -> (r: Vec<char>)
    ensures
        r@ == after_last(hay@, sep@),
{
    let from: usize = match rfind(hay, sep) {
        Some(i) => i + sep.len(),
        None => 0,
    };
    let mut out: Vec<char> = Vec::new();
    let mut k: usize = from;
    while k < hay.len()
        invariant
            from <= k <= hay.len(),
            out@ == hay@.subrange(from as int, k as int),
        decreases hay.len() - k,
    {
        out.push(hay[k]);
        k = k + 1;
    }
    assert(hay@.skip(0) == hay@);
    out
}

/// `s` without its leading whitespace.
pub open spec fn trim_start(s: Seq<char>) -> Seq<char>
    decreases s.len(),
{
    if s.len() > 0 && is_whitespace(s[0]) {
        trim_start(s.drop_first())
    } else {
        s
    }
}

/// `s` without its trailing whitespace.
pub open spec fn trim_end(s: Seq<char>) -> Seq<char>
    decreases s.len(),
{
    if s.len() > 0 && is_whitespace(s.last()) {
        trim_end(s.drop_last())
    } else {
        s
    }
}

/// `s` without leading and trailing whitespace.
pub open spec fn trimmed(s: Seq<char>) -> Seq<char> {
    trim_end(trim_start(s))
}

/// Every character of `s` is whitespace.
pub open spec fn is_blank(s: Seq<char>) -> bool {
    forall|i: int| 0 <= i < s.len() ==> is_whitespace(#[trigger] s[i])
}

/// `s` is not empty and neither starts nor ends with whitespace.
pub open spec fn is_tight(s: Seq<char>) -> bool {
    s.len() > 0 && !is_whitespace(s[0]) && !is_whitespace(s.last())
}

/// Whitespace in front of a text is trimmed away.
pub proof fn lemma_trim_start_skips_blank(blank: Seq<char>, rest: Seq<char>)
    requires
        is_blank(blank),
    ensures
        trim_start(blank + rest) == trim_start(rest),
    decreases blank.len(),
{
    if blank.len() == 0 {
        assert(blank + rest =~= rest);
    } else {
        assert((blank + rest)[0] == blank[0]);
        assert((blank + rest).drop_first() =~= blank.drop_first() + rest);
        assert forall|i: int| 0 <= i < blank.drop_first().len() implies is_whitespace(
            #[trigger] blank.drop_first()[i],
        ) by {
            assert(blank.drop_first()[i] == blank[i + 1]);
        }
        lemma_trim_start_skips_blank(blank.drop_first(), rest);
    }
}

/// Whitespace behind a text is trimmed away.
pub proof fn lemma_trim_end_drops_blank(rest: Seq<char>, blank: Seq<char>)
    requires
        is_blank(blank),
    ensures
        trim_end(rest + blank) == trim_end(rest),
    decreases blank.len(),
{
    if blank.len() == 0 {
        assert(rest + blank =~= rest);
    } else {
        assert((rest + blank).last() == blank.last());
        assert((rest + blank).drop_last() =~= rest + blank.drop_last());
        assert forall|i: int| 0 <= i < blank.drop_last().len() implies is_whitespace(
            #[trigger] blank.drop_last()[i],
        ) by {
            assert(blank.drop_last()[i] == blank[i]);
        }
        lemma_trim_end_drops_blank(rest, blank.drop_last());
    }
}

/// A text of whitespace alone trims to the empty text.
pub proof fn lemma_trim_of_blank(s: Seq<char>)
    requires
        is_blank(s),
    ensures
        trimmed(s) == Seq::<char>::empty(),
{
    assert(s + Seq::<char>::empty() =~= s);
    lemma_trim_start_skips_blank(s, Seq::empty());
}

/// Trimming takes the whitespace around a text away and leaves the text:
/// what neither starts nor ends with whitespace is what is left.
pub proof fn lemma_trim_leaves_core(before: Seq<char>, core: Seq<char>, after: Seq<char>)
    requires
        is_blank(before),
        is_tight(core),
        is_blank(after),
    ensures
        trimmed(before + core + after) == core,
        trimmed(core) == core,
{
    assert(before + core + after =~= before + (core + after));
    lemma_trim_start_skips_blank(before, core + after);
    assert((core + after)[0] == core[0]);
    lemma_trim_end_drops_blank(core, after);
    assert(core + Seq::<char>::empty() =~= core);
    lemma_trim_start_skips_blank(Seq::empty(), core);
    assert(Seq::<char>::empty() + core =~= core);
}

/// The number of leading whitespace characters of `v[from..]`, added to `from`.
fn skip_whitespace(v: &Vec<char>, from: usize) -> (r: usize)
    requires
        from <= v.len(),
    ensures
        from <= r <= v.len(),
        trim_start(v@.skip(from as int)) == v@.skip(r as int),
{
    let mut i: usize = from;
    while i < v.len() && v[i].is_whitespace()
        invariant
            from <= i <= v.len(),
            trim_start(v@.skip(from as int)) == trim_start(v@.skip(i as int)),
        decreases v.len() - i,
    {
        assert(v@.skip(i as int).drop_first() == v@.skip(i + 1));
        i = i + 1;
    }
    proof {
        lemma_trim_start_done(v@.skip(i as int));
    }
    i
}

/// Text that does not start with whitespace is its own `trim_start`.
proof fn lemma_trim_start_done(s: Seq<char>)
    requires
        s.len() == 0 || !is_whitespace(s[0]),
    ensures
        trim_start(s) == s,
{
}

/// The end of `v[from..]` once trailing whitespace is dropped.
fn drop_whitespace(v: &Vec<char>, from: usize) -> (r: usize)
    requires
        from <= v.len(),
    ensures
        from <= r <= v.len(),
        trim_end(v@.skip(from as int)) == v@.subrange(from as int, r as int),
{
    let mut i: usize = v.len();
    assert(v@.skip(from as int) == v@.subrange(from as int, i as int));
    while i > from && v[i - 1].is_whitespace()
        invariant
            from <= i <= v.len(),
            trim_end(v@.skip(from as int)) == trim_end(v@.subrange(from as int, i as int)),
        decreases i,
    {
        assert(v@.subrange(from as int, i as int).drop_last() == v@.subrange(
            from as int,
            i - 1,
        ));
        i = i - 1;
    }
    i
}

/// `s` without leading and trailing whitespace.
pub fn trim(s: &str) -> (r: String)
    ensures
        r@ == trimmed(s@),
{
    let v = chars_of(s);
    let from = skip_whitespace(&v, 0);
    let to = drop_whitespace(&v, from);
    assert(v@.skip(0) == v@);
    text_of_range(&v, from, to)
}

/// `s` without any occurrence of the character `c`.
pub open spec fn without_char(s: Seq<char>, c: char) -> Seq<char> {
    s.filter(|x: char| x != c)
}

/// `v` without any occurrence of the character `c`.
pub fn remove_char(v: &Vec<char>, c: char) -> (r: Vec<char>)
    ensures
        r@ == without_char(v@, c),
{
    let mut out: Vec<char> = Vec::new();
    let mut i: usize = 0;
    proof {
        reveal(Seq::filter);
    }
    while i < v.len()
        invariant
            i <= v.len(),
            out@ == without_char(v@.take(i as int), c),
        decreases v.len() - i,
    {
        proof {
            reveal(Seq::filter);
            assert(v@.take(i + 1).drop_last() == v@.take(i as int));
        }
        if v[i] != c {
            out.push(v[i]);
        }
        i = i + 1;
    }
    assert(v@.take(v.len() as int) == v@);
    out
}

/// `a` comes before `b`, or equals it, in the order of `String`: character by
/// character by code point, a proper prefix first.
pub open spec fn text_le(a: Seq<char>, b: Seq<char>) -> bool
    decreases a.len(),
{
    if a.len() == 0 {
        true
    } else if b.len() == 0 {
        false
    } else if a[0] != b[0] {
        (a[0] as int) < (b[0] as int)
    } else {
        text_le(a.drop_first(), b.drop_first())
    }
}

/// Whether `a` has the smaller code point.
pub fn char_before(a: char, b: char) -> (r: bool)
    ensures
        r == ((a as int) < (b as int)),
{
    a < b
}

/// Whether `a` comes before `b`, or equals it, in the order of `String`.
pub fn text_before_or_same(a: &Vec<char>, b: &Vec<char>) -> (r: bool)
    ensures
        r == text_le(a@, b@),
{
    let mut i: usize = 0;
    assert(a@.skip(0) == a@ && b@.skip(0) == b@);
    loop
        invariant
            i <= a.len(),
            i <= b.len(),
            text_le(a@, b@) == text_le(a@.skip(i as int), b@.skip(i as int)),
        decreases a.len() - i,
    {
        if i == a.len() {
            return true;
        }
        if i == b.len() {
            return false;
        }
        assert(a@.skip(i as int)[0] == a@[i as int]);
        assert(b@.skip(i as int)[0] == b@[i as int]);
        let x: char = a[i];
        let y: char = b[i];
        if x != y {
            return char_before(x, y);
        }
        assert(a@.skip(i as int).drop_first() == a@.skip(i + 1));
        assert(b@.skip(i as int).drop_first() == b@.skip(i + 1));
        i = i + 1;
    }
}

/// The number of bytes that `c` takes in UTF-8.
pub open spec fn utf8_len(c: char) -> nat {
    if (c as u32) < 0x80 {
        1
    } else if (c as u32) < 0x800 {
        2
    } else if (c as u32) < 0x10000 {
        3
    } else {
        4
    }
}

/// The number of bytes that `s` takes in UTF-8.
pub open spec fn byte_len(s: Seq<char>) -> nat
    decreases s.len(),
{
    if s.len() == 0 {
        0
    } else {
        byte_len(s.drop_last()) + utf8_len(s.last())
    }
}

/// The first `k` characters of `s` take exactly `n` bytes.
pub open spec fn prefix_takes(s: Seq<char>, n: nat, k: int) -> bool {
    0 <= k <= s.len() && byte_len(s.take(k)) == n
}

/// The start of `s` that takes exactly `n` bytes in UTF-8: what a byte range
/// of length `n` from the start of `s` holds. There is none where `s` is
/// shorter than `n` bytes or where byte `n` falls inside a character.
pub open spec fn take_bytes(s: Seq<char>, n: nat) -> Option<Seq<char>> {
    if exists|k: int| prefix_takes(s, n, k) {
        Some(s.take(choose|k: int| prefix_takes(s, n, k)))
    } else {
        None
    }
}

/// A longer start of a text takes more bytes.
pub proof fn lemma_byte_len_grows(s: Seq<char>, j: int, k: int)
    requires
        0 <= j < k <= s.len(),
    ensures
        byte_len(s.take(j)) < byte_len(s.take(k)),
    decreases k - j,
{
    assert(s.take(k).drop_last() == s.take(k - 1));
    if j < k - 1 {
        lemma_byte_len_grows(s, j, k - 1);
    }
}

/// The number of bytes that `c` takes in UTF-8.
pub fn char_bytes(c: char) -> (r: usize)
    ensures
        r == utf8_len(c),
{
    let u: u32 = c as u32;
    if u < 0x80 {
        1
    } else if u < 0x800 {
        2
    } else if u < 0x10000 {
        3
    } else {
        4
    }
}

/// The start of `v[from..]` that takes exactly `n` bytes in UTF-8.
pub fn bytes_prefix(v: &Vec<char>, from: usize, n: usize) -> (r: Option<String>)
    requires
        from <= v.len(),
        n <= usize::MAX - 4,
    ensures
        r.deep_view() == take_bytes(v@.skip(from as int), n as nat),
{
    let ghost s = v@.skip(from as int);
    let mut i: usize = from;
    let mut used: usize = 0;
    assert(s.take(0) =~= Seq::<char>::empty());
    while used < n && i < v.len()
        invariant
            s == v@.skip(from as int),
            from <= i <= v.len(),
            n <= usize::MAX - 4,
            used == byte_len(s.take(i - from)),
            used <= n + 3,
            i > from ==> byte_len(s.take(i - from - 1)) < n,
        decreases v.len() - i,
    {
        assert(s.take(i - from + 1).drop_last() == s.take(i - from));
        assert(s.take(i - from + 1).last() == v@[i as int]);
        used = used + char_bytes(v[i]);
        i = i + 1;
    }
    let ghost k = i - from;
    if used == n {
        assert(prefix_takes(s, n as nat, k));
        let ghost c = choose|c: int| prefix_takes(s, n as nat, c);
        proof {
            if c < k {
                lemma_byte_len_grows(s, c, k);
            }
            if k < c {
                lemma_byte_len_grows(s, k, c);
            }
            assert(s.take(k) =~= v@.subrange(from as int, i as int));
        }
        Some(text_of_range(v, from, i))
    } else {
        proof {
            assert forall|c: int| !prefix_takes(s, n as nat, c) by {
                if 0 <= c <= s.len() {
                    if c < k {
                        lemma_byte_len_grows(s, c, k);
                        if c < k - 1 {
                            lemma_byte_len_grows(s, c, k - 1);
                        }
                    }
                    if k < c {
                        lemma_byte_len_grows(s, k, c);
                    }
                }
            }
        }
        None
    }
}

/// Whether `c` is one of the ten decimal digits.
pub open spec fn is_digit(c: char) -> bool {
    48 <= (c as u32) <= 57
}

/// The value of the decimal digit `c`.
pub open spec fn digit_value(c: char) -> nat {
    ((c as u32) - 48) as nat
}

/// Every character of `s` is a decimal digit.
pub open spec fn all_digits(s: Seq<char>) -> bool {
    forall|i: int| 0 <= i < s.len() ==> is_digit(#[trigger] s[i])
}

/// The number that the decimal digits `s` write.
pub open spec fn digits_value(s: Seq<char>) -> nat
    decreases s.len(),
{
    if s.len() == 0 {
        0
    } else {
        digits_value(s.drop_last()) * 10 + digit_value(s.last())
    }
}

/// `s` without one leading plus sign.
pub open spec fn unsigned_part(s: Seq<char>) -> Seq<char> {
    if s.len() > 0 && s[0] == '+' {
        s.drop_first()
    } else {
        s
    }
}

/// The 32-bit unsigned number that `s` writes in decimal: an optional plus
/// sign and at least one digit, nothing else, and a value within range.
pub open spec fn parse_u32_of(s: Seq<char>) -> Option<u32> {
    let d = unsigned_part(s);
    if d.len() > 0 && all_digits(d) && digits_value(d) <= u32::MAX {
        Some(digits_value(d) as u32)
    } else {
        None
    }
}

/// A longer run of digits does not write a smaller number.
pub proof fn lemma_digits_value_grows(s: Seq<char>, j: int, k: int)
    requires
        0 <= j <= k <= s.len(),
    ensures
        digits_value(s.take(j)) <= digits_value(s.take(k)),
    decreases k - j,
{
    if j < k {
        assert(s.take(k).drop_last() == s.take(k - 1));
        lemma_digits_value_grows(s, j, k - 1);
    }
}

/// The value of `c` where it is a decimal digit.
pub fn digit_of(c: char) -> (r: Option<u32>)
    ensures
        r is Some == is_digit(c),
        r matches Some(d) ==> d == digit_value(c) && d <= 9,
{
    let u: u32 = c as u32;
    if 48 <= u && u <= 57 {
        Some(u - 48)
    } else {
        None
    }
}

/// Reads a 32-bit unsigned number written in decimal.
pub fn parse_u32(v: &Vec<char>) -> (r: Option<u32>)
    ensures
        r == parse_u32_of(v@),
{
    let from: usize = if v.len() > 0 && v[0] == '+' {
        1
    } else {
        0
    };
    let ghost d = unsigned_part(v@);
    assert(d =~= v@.skip(from as int));
    if from == v.len() {
        return None;
    }
    let mut acc: u64 = 0;
    let mut i: usize = from;
    assert(d.take(0) =~= Seq::<char>::empty());
    while i < v.len()
        invariant
            d == v@.skip(from as int),
            d == unsigned_part(v@),
            from <= i <= v.len(),
            all_digits(d.take(i - from)),
            acc == digits_value(d.take(i - from)),
            acc <= u32::MAX,
        decreases v.len() - i,
    {
        proof {
            assert(d.take(i - from + 1).drop_last() == d.take(i - from));
            assert(d.take(i - from + 1).last() == v@[i as int]);
            assert(d[i - from] == v@[i as int]);
        }
        match digit_of(v[i]) {
            Some(x) => {
                acc = acc * 10 + x as u64;
                proof {
                    assert forall|j: int| 0 <= j < d.take(i - from + 1).len() implies is_digit(
                        #[trigger] d.take(i - from + 1)[j],
                    ) by {
                        if j < i - from {
                            assert(d.take(i - from)[j] == d[j]);
                        }
                    }
                }
                assert(acc == digits_value(d.take(i - from + 1)));
                if acc > 0xffff_ffff {
                    proof {
                        lemma_digits_value_grows(d, i - from + 1, d.len() as int);
                        assert(d.take(d.len() as int) == d);
                    }
                    return None;
                }
            },
            None => {
                assert(!is_digit(d[i - from]));
                return None;
            },
        }
        i = i + 1;
    }
    assert(d.take(d.len() as int) == d);
    Some(acc as u32)
}

/// The character that writes the decimal digit `d`.
pub open spec fn digit_char(d: nat) -> char {
    if d == 0 {
        '0'
    } else if d == 1 {
        '1'
    } else if d == 2 {
        '2'
    } else if d == 3 {
        '3'
    } else if d == 4 {
        '4'
    } else if d == 5 {
        '5'
    } else if d == 6 {
        '6'
    } else if d == 7 {
        '7'
    } else if d == 8 {
        '8'
    } else {
        '9'
    }
}

/// `n` written in decimal, without leading zeros.
pub open spec fn decimal(n: nat) -> Seq<char>
    decreases n,
{
    if n < 10 {
        seq![digit_char(n)]
    } else {
        decimal(n / 10).push(digit_char(n % 10))
    }
}

/// The character that writes the decimal digit `d`.
pub fn digit_to_char(d: u64) -> (c: char)
    requires
        d <= 9,
    ensures
        c == digit_char(d as nat),
{
    if d == 0 {
        '0'
    } else if d == 1 {
        '1'
    } else if d == 2 {
        '2'
    } else if d == 3 {
        '3'
    } else if d == 4 {
        '4'
    } else if d == 5 {
        '5'
    } else if d == 6 {
        '6'
    } else if d == 7 {
        '7'
    } else if d == 8 {
        '8'
    } else {
        '9'
    }
}

/// `n` written in decimal, without leading zeros.
pub fn decimal_chars(n: u64) -> (out: Vec<char>)
    ensures
        out@ == decimal(n as nat),
    decreases n,
{
    if n < 10 {
        let mut out: Vec<char> = Vec::new();
        out.push(digit_to_char(n));
        out
    } else {
        let mut out = decimal_chars(n / 10);
        out.push(digit_to_char(n % 10));
        out
    }
}

/// Every text comes before or equals itself.
pub proof fn lemma_text_le_reflexive(s: Seq<char>)
    ensures
        text_le(s, s),
    decreases s.len(),
{
    if s.len() > 0 {
        lemma_text_le_reflexive(s.drop_first());
    }
}

/// Of two texts one comes before the other, or they are the same.
pub proof fn lemma_text_le_total(a: Seq<char>, b: Seq<char>)
    ensures
        text_le(a, b) || text_le(b, a),
    decreases a.len(),
{
    if a.len() > 0 && b.len() > 0 && a[0] == b[0] {
        lemma_text_le_total(a.drop_first(), b.drop_first());
    }
}

/// The order of texts is transitive.
pub proof fn lemma_text_le_transitive(a: Seq<char>, b: Seq<char>, c: Seq<char>)
    requires
        text_le(a, b),
        text_le(b, c),
    ensures
        text_le(a, c),
    decreases a.len(),
{
    if a.len() > 0 && b.len() > 0 && c.len() > 0 && a[0] == b[0] && b[0] == c[0] {
        lemma_text_le_transitive(a.drop_first(), b.drop_first(), c.drop_first());
    }
}

/// The pieces of `s` between occurrences of `sep`, in order. A text without
/// `sep` is one piece; a separator at either end leaves an empty piece there.
pub open spec fn split_on(s: Seq<char>, sep: char) -> Seq<Seq<char>>
    decreases s.len(),
{
    if s.len() == 0 {
        seq![Seq::empty()]
    } else {
        let before = split_on(s.drop_last(), sep);
        if s.last() == sep {
            before.push(Seq::empty())
        } else {
            before.drop_last().push(before.last().push(s.last()))
        }
    }
}

/// The pieces of `v` between occurrences of `sep`, in order.
pub fn split(v: &Vec<char>, sep: char) -> (pieces: Vec<Vec<char>>)
    ensures
        pieces.deep_view() == split_on(v@, sep),
{
    let mut done: Vec<Vec<char>> = Vec::new();
    let mut piece: Vec<char> = Vec::new();
    let mut i: usize = 0;
    proof {
        assert(v@.take(0) =~= Seq::<char>::empty());
        assert(done.deep_view().push(piece@) =~= split_on(v@.take(0), sep));
    }
    while i < v.len()
        invariant
            i <= v.len(),
            done.deep_view().push(piece@) == split_on(v@.take(i as int), sep),
        decreases v.len() - i,
    {
        proof {
            assert(v@.take(i + 1).drop_last() == v@.take(i as int));
            assert(v@.take(i + 1).last() == v@[i as int]);
        }
        let ghost before = split_on(v@.take(i as int), sep);
        let ghost done_before = done.deep_view();
        let ghost piece_before = piece@;
        if v[i] == sep {
            done.push(piece);
            piece = Vec::new();
            proof {
                assert(piece_before =~= done@[done@.len() - 1].deep_view());
                assert(done.deep_view() =~= done_before.push(piece_before));
                assert(done.deep_view().push(piece@) =~= before.push(Seq::empty()));
            }
        } else {
            piece.push(v[i]);
            proof {
                assert(before.drop_last() =~= done_before);
                assert(before.last() == piece_before);
            }
        }
        i = i + 1;
    }
    proof {
        assert(v@.take(v.len() as int) == v@);
    }
    let ghost done_before = done.deep_view();
    let ghost last = piece@;
    done.push(piece);
    assert(last =~= done@[done@.len() - 1].deep_view());
    assert(done.deep_view() =~= done_before.push(last));
    done
}

/// `s` without its leading whitespace.
pub fn trim_leading(v: &Vec<char>) -> (r: Vec<char>)
    ensures
        r@ == trim_start(v@),
{
    let from = skip_whitespace(v, 0);
    assert(v@.skip(0) == v@);
    let mut out: Vec<char> = Vec::new();
    let mut k: usize = from;
    while k < v.len()
        invariant
            from <= k <= v.len(),
            out@ == v@.subrange(from as int, k as int),
        decreases v.len() - k,
    {
        out.push(v[k]);
        k = k + 1;
    }
    out
}

/// `s` without the occurrences of `c` that it starts with.
pub open spec fn without_leading(s: Seq<char>, c: char) -> Seq<char>
    decreases s.len(),
{
    if s.len() > 0 && s[0] == c {
        without_leading(s.drop_first(), c)
    } else {
        s
    }
}

/// `v[from..to]` without the occurrences of `c` that it starts with.
pub fn strip_leading(v: &Vec<char>, from: usize, to: usize, c: char) -> (r: Vec<char>)
    requires
        from <= to <= v.len(),
    ensures
        r@ == without_leading(v@.subrange(from as int, to as int), c),
{
    let mut i: usize = from;
    while i < to && v[i] == c
        invariant
            from <= i <= to <= v.len(),
            without_leading(v@.subrange(from as int, to as int), c) == without_leading(
                v@.subrange(i as int, to as int),
                c,
            ),
        decreases to - i,
    {
        assert(v@.subrange(i as int, to as int).drop_first() == v@.subrange(i + 1, to as int));
        i = i + 1;
    }
    let mut out: Vec<char> = Vec::new();
    let mut k: usize = i;
    while k < to
        invariant
            i <= k <= to <= v.len(),
            out@ == v@.subrange(i as int, k as int),
        decreases to - k,
    {
        out.push(v[k]);
        k = k + 1;
    }
    out
}

/// The characters `v[from..]`.
pub fn tail_from(v: &Vec<char>, from: usize) -> (r: Vec<char>)
    requires
        from <= v.len(),
    ensures
        r@ == v@.skip(from as int),
{
    let mut out: Vec<char> = Vec::new();
    let mut k: usize = from;
    while k < v.len()
        invariant
            from <= k <= v.len(),
            out@ == v@.subrange(from as int, k as int),
        decreases v.len() - k,
    {
        out.push(v[k]);
        k = k + 1;
    }
    out
}

} // verus!
