//! Text as sequences of characters: searching, splitting, case folding,
//! trimming, and the number formats that the rest of the library uses.

use vstd::prelude::*;

verus! {

/// The text that `str::to_lowercase` returns. Unicode decides it: nothing else
/// is stated of it here.
pub uninterp spec fn lowercase(s: Seq<char>) -> Seq<char>;

/// `c` is white space: it has the Unicode property `White_Space`.
pub open spec fn is_space(c: char) -> bool {
    let n = c as u32;
    ||| 0x09 <= n && n <= 0x0D
    ||| n == 0x20
    ||| n == 0x85
    ||| n == 0xA0
    ||| n == 0x1680
    ||| 0x2000 <= n && n <= 0x200A
    ||| n == 0x2028
    ||| n == 0x2029
    ||| n == 0x202F
    ||| n == 0x205F
    ||| n == 0x3000
}

/// Whether a character is white space.
pub fn white_space(c: char) -> (r: bool)
    ensures
        r == is_space(c),
{
    let n: u32 = c as u32;
    (0x09 <= n && n <= 0x0D) || n == 0x20 || n == 0x85 || n == 0xA0 || n == 0x1680 || (0x2000 <= n
        && n <= 0x200A) || n == 0x2028 || n == 0x2029 || n == 0x202F || n == 0x205F || n == 0x3000
}

/// `str::to_lowercase`: the lowercase equivalent of a text, named `lowercase`.
pub assume_specification[ str::to_lowercase ](s: &str) -> (r: String)
    ensures
        r@ == lowercase(s@),
;

/// `String::push`: appends one character.
pub assume_specification[ String::push ](s: &mut String, c: char)
    ensures
        final(s)@ == old(s)@.push(c),
;

/// The characters of a text.
pub fn chars_of(s: &str) -> (r: Vec<char>)
    ensures
        r@ == s@,
{
    let mut v: Vec<char> = Vec::new();
    for c in it: s.chars()
        invariant
            it.seq() == s@,
            v@ == s@.take(it.index() as int),
    {
        v.push(c);
    }
    v
}

/// The text made of some characters.
pub fn from_chars(v: &[char]) -> (r: String)
    ensures
        r@ == v@,
{
    let mut s = String::new();
    for i in 0..v.len()
        invariant
            s@ == v@.take(i as int),
    {
        s.push(v[i]);
    }
    s
}

/// A text of its own with the same characters.
pub fn owned(s: &str) -> (r: String)
    ensures
        r@ == s@,
{
    s.to_owned()
}

/// Whether two texts hold the same characters.
pub fn same(a: &str, b: &str) -> (r: bool)
    ensures
        r == (a@ == b@),
{
    let x = chars_of(a);
    let y = chars_of(b);
    same_chars(&x, &y)
}

/// Whether two runs of characters are the same.
pub fn same_chars(a: &[char], b: &[char]) -> (r: bool)
    ensures
        r == (a@ == b@),
{
    if a.len() != b.len() {
        return false;
    }
    for i in 0..a.len()
        invariant
            a@.len() == b@.len(),
            forall|j: int| 0 <= j < i ==> a@[j] == b@[j],
    {
        if a[i] != b[i] {
            return false;
        }
    }
    assert(a@ =~= b@);
    true
}

// ---------------------------------------------------------------- searching

/// `pat` stands in `s` at position `i`.
pub open spec fn occurs_at(s: Seq<char>, pat: Seq<char>, i: int) -> bool {
    0 <= i && i + pat.len() <= s.len() && s.subrange(i, i + pat.len()) == pat
}

/// `pat` stands somewhere in `s`.
pub open spec fn contains(s: Seq<char>, pat: Seq<char>) -> bool {
    exists|i: int| occurs_at(s, pat, i)
}

/// `i` is the first position at which `pat` stands in `s`.
pub open spec fn first_at(s: Seq<char>, pat: Seq<char>, i: int) -> bool {
    occurs_at(s, pat, i) && forall|j: int| 0 <= j < i ==> !occurs_at(s, pat, j)
}

/// The first position at which `pat` stands in `s`.
pub open spec fn find(s: Seq<char>, pat: Seq<char>) -> Option<int> {
    if contains(s, pat) {
        Some(choose|i: int| first_at(s, pat, i))
    } else {
        None
    }
}

/// `s` begins with `pat`.
pub open spec fn starts_with(s: Seq<char>, pat: Seq<char>) -> bool {
    occurs_at(s, pat, 0)
}

/// A first position is what `find` gives.
pub proof fn lemma_find_is_first(s: Seq<char>, pat: Seq<char>, i: int)
    requires
        first_at(s, pat, i),
    ensures
        find(s, pat) == Some(i),
{
    assert(occurs_at(s, pat, i));
    let k = choose|k: int| first_at(s, pat, k);
    assert(first_at(s, pat, k));
    if k < i {
        assert(!occurs_at(s, pat, k));
    }
    if i < k {
        assert(!occurs_at(s, pat, i));
    }
}

/// Whether `pat` stands in `s` at position `i`.
pub fn is_at(s: &[char], pat: &[char], i: usize) -> (r: bool)
    requires
        i <= s@.len(),
    ensures
        r == occurs_at(s@, pat@, i as int),
{
    let n: usize = s.len();
    if n - i < pat.len() {
        return false;
    }
    for j in 0..pat.len()
        invariant
            n == s@.len(),
            i + pat@.len() <= n,
            forall|k: int| 0 <= k < j ==> s@[i + k] == pat@[k],
    {
        if s[i + j] != pat[j] {
            assert(s@.subrange(i as int, i + pat@.len())[j as int] != pat@[j as int]);
            return false;
        }
    }
    assert(s@.subrange(i as int, i + pat@.len()) =~= pat@);
    true
}

/// The first position of `pat` in `s` at or after `from`, counted from `from`.
pub fn position_from(s: &[char], pat: &[char], from: usize) -> (r: Option<usize>)
    requires
        from <= s@.len(),
    ensures
        match r {
            Some(i) => i + pat@.len() <= s@.len() - from && first_at(
                s@.skip(from as int),
                pat@,
                i as int,
            ) && find(s@.skip(from as int), pat@) == Some(i as int),
            None => !contains(s@.skip(from as int), pat@) && find(s@.skip(from as int), pat@)
                is None,
        },
{
    let ghost rest = s@.skip(from as int);
    let mut k: usize = from;
    loop
        invariant_except_break
            from <= k <= s@.len(),
        invariant
            from <= s@.len(),
            rest == s@.skip(from as int),
            forall|j: int| 0 <= j < k - from ==> !occurs_at(rest, pat@, j),
        ensures
            forall|j: int| !occurs_at(rest, pat@, j),
        decreases s@.len() - k,
    {
        let hit = is_at(s, pat, k);
        proof {
            let i = k - from;
            if k + pat@.len() <= s@.len() {
                assert(s@.subrange(k as int, k + pat@.len()) =~= rest.subrange(i, i + pat@.len()));
            }
            assert(hit == occurs_at(rest, pat@, i));
        }
        if hit {
            proof {
                lemma_find_is_first(rest, pat@, k - from);
            }
            return Some(k - from);
        }
        if k == s.len() {
            break;
        }
        k = k + 1;
    }
    None
}

/// Whether `pat` stands somewhere in `s`.
pub fn has_text(s: &str, pat: &str) -> (r: bool)
    ensures
        r == contains(s@, pat@),
{
    let v = chars_of(s);
    let p = chars_of(pat);
    assert(v@.skip(0) =~= v@);
    position_from(&v, &p, 0).is_some()
}

/// Whether `s` begins with `pat`.
pub fn begins(s: &str, pat: &str) -> (r: bool)
    ensures
        r == starts_with(s@, pat@),
{
    let v = chars_of(s);
    let p = chars_of(pat);
    is_at(&v, &p, 0)
}

// -------------------------------------------------------------- letter case

/// The ASCII lowercase form of a character; other characters stay.
pub open spec fn lower_char(c: char) -> char {
    if 'A' <= c && c <= 'Z' {
        (c as int + 32) as char
    } else {
        c
    }
}

/// The ASCII uppercase form of a character; other characters stay.
pub open spec fn upper_char(c: char) -> char {
    if 'a' <= c && c <= 'z' {
        (c as int - 32) as char
    } else {
        c
    }
}

/// A text with its ASCII letters in lower case.
pub open spec fn ascii_lower(s: Seq<char>) -> Seq<char> {
    s.map_values(|c: char| lower_char(c))
}

/// A text with its ASCII letters in upper case.
pub open spec fn ascii_upper(s: Seq<char>) -> Seq<char> {
    s.map_values(|c: char| upper_char(c))
}

/// Two texts differ at most in the case of ASCII letters.
pub open spec fn same_ignoring_case(a: Seq<char>, b: Seq<char>) -> bool {
    ascii_lower(a) == ascii_lower(b)
}

fn lower_one(c: char) -> (r: char)
    ensures
        r == lower_char(c),
{
    if 'A' <= c && c <= 'Z' {
        ((c as u8) + 32) as char
    } else {
        c
    }
}

fn upper_one(c: char) -> (r: char)
    ensures
        r == upper_char(c),
{
    if 'a' <= c && c <= 'z' {
        ((c as u8) - 32) as char
    } else {
        c
    }
}

/// A text with its ASCII letters in lower case.
pub fn to_ascii_lower(s: &str) -> (r: String)
    ensures
        r@ == ascii_lower(s@),
{
    let v = chars_of(s);
    let mut out = String::new();
    for i in 0..v.len()
        invariant
            v@ == s@,
            out@ == ascii_lower(s@).take(i as int),
    {
        out.push(lower_one(v[i]));
        assert(out@ =~= ascii_lower(s@).take(i + 1));
    }
    assert(ascii_lower(s@).take(s@.len() as int) =~= ascii_lower(s@));
    out
}

/// A text with its ASCII letters in upper case.
pub fn to_ascii_upper(s: &str) -> (r: String)
    ensures
        r@ == ascii_upper(s@),
{
    let v = chars_of(s);
    let mut out = String::new();
    for i in 0..v.len()
        invariant
            v@ == s@,
            out@ == ascii_upper(s@).take(i as int),
    {
        out.push(upper_one(v[i]));
        assert(out@ =~= ascii_upper(s@).take(i + 1));
    }
    assert(ascii_upper(s@).take(s@.len() as int) =~= ascii_upper(s@));
    out
}

/// Whether two texts differ at most in the case of ASCII letters.
pub fn eq_ignore_case(a: &str, b: &str) -> (r: bool)
    ensures
        r == same_ignoring_case(a@, b@),
{
    let x = to_ascii_lower(a);
    let y = to_ascii_lower(b);
    x == y
}

// ---------------------------------------------------- removing and trimming

/// `s` without the occurrences of `pat`, found from left to right without
/// overlap.
pub open spec fn without(s: Seq<char>, pat: Seq<char>) -> Seq<char>
    decreases s.len(),
{
    if pat.len() == 0 || s.len() < pat.len() {
        s
    } else if starts_with(s, pat) {
        without(s.skip(pat.len() as int), pat)
    } else {
        seq![s[0]] + without(s.skip(1), pat)
    }
}

/// Takes every occurrence of `pat` out of `s`.
pub fn remove_all(s: &str, pat: &str) -> (r: String)
    ensures
        r@ == without(s@, pat@),
{
    let v = chars_of(s);
    let p = chars_of(pat);
    if p.len() == 0 {
        return from_chars(&v);
    }
    let mut out = String::new();
    let mut i: usize = 0;
    assert(v@.skip(0) =~= v@);
    while i < v.len() && v.len() - i >= p.len()
        invariant
            p@.len() > 0,
            i <= v@.len(),
            without(v@, p@) == out@ + without(v@.skip(i as int), p@),
        decreases v@.len() - i,
    {
        let ghost rest = v@.skip(i as int);
        let hit = is_at(&v, &p, i);
        proof {
            assert(v@.subrange(i as int, i + p@.len()) =~= rest.subrange(0, p@.len() as int));
        }
        if hit {
            assert(rest.skip(p@.len() as int) =~= v@.skip(i + p@.len()));
            i = i + p.len();
        } else {
            let ghost before = out@;
            assert(rest.skip(1) =~= v@.skip(i + 1));
            out.push(v[i]);
            assert(out@ + without(v@.skip(i + 1), p@) =~= before + (seq![rest[0]] + without(
                rest.skip(1),
                p@,
            )));
            i = i + 1;
        }
    }
    let ghost tail = v@.skip(i as int);
    let ghost kept = out@;
    while i < v.len()
        invariant
            i <= v@.len(),
            kept + tail == out@ + v@.skip(i as int),
        decreases v@.len() - i,
    {
        let ghost before = out@;
        out.push(v[i]);
        assert(out@ + v@.skip(i + 1) =~= before + v@.skip(i as int));
        i = i + 1;
    }
    assert(out@ + v@.skip(i as int) =~= out@);
    out
}

/// `s` without its leading white space.
pub open spec fn trim_start(s: Seq<char>) -> Seq<char>
    decreases s.len(),
{
    if s.len() > 0 && is_space(s[0]) {
        trim_start(s.skip(1))
    } else {
        s
    }
}

/// `s` without its trailing white space.
pub open spec fn trim_end(s: Seq<char>) -> Seq<char>
    decreases s.len(),
{
    if s.len() > 0 && is_space(s.last()) {
        trim_end(s.drop_last())
    } else {
        s
    }
}

/// `s` without its leading and trailing white space.
pub open spec fn trimmed(s: Seq<char>) -> Seq<char> {
    trim_end(trim_start(s))
}

/// A text without its leading and trailing white space.
pub fn trim(s: &str) -> (r: String)
    ensures
        r@ == trimmed(s@),
{
    let v = chars_of(s);
    let mut lo: usize = 0;
    assert(v@.skip(0) =~= v@);
    while lo < v.len() && white_space(v[lo])
        invariant
            lo <= v@.len(),
            trim_start(v@) == trim_start(v@.skip(lo as int)),
        decreases v@.len() - lo,
    {
        assert(v@.skip(lo as int).skip(1) =~= v@.skip(lo + 1));
        lo = lo + 1;
    }
    let ghost front = v@.skip(lo as int);
    assert(trim_start(v@) == front);
    let mut hi: usize = v.len();
    assert(v@.subrange(lo as int, hi as int) =~= front);
    while hi > lo && white_space(v[hi - 1])
        invariant
            lo <= hi <= v@.len(),
            trim_end(front) == trim_end(v@.subrange(lo as int, hi as int)),
        decreases hi,
    {
        assert(v@.subrange(lo as int, hi as int).drop_last() =~= v@.subrange(
            lo as int,
            hi - 1,
        ));
        hi = hi - 1;
    }
    let ghost kept = v@.subrange(lo as int, hi as int);
    assert(trim_end(front) == kept);
    let mut out = String::new();
    for i in lo..hi
        invariant
            lo <= hi <= v@.len(),
            out@ == v@.subrange(lo as int, i as int),
    {
        out.push(v[i]);
        assert(out@ =~= v@.subrange(lo as int, i + 1));
    }
    out
}

// ---------------------------------------------------------------- splitting

/// The piece with number `k`, counted from 0, of `s` cut at each occurrence of
/// `sep`.
pub open spec fn piece(s: Seq<char>, sep: Seq<char>, k: nat) -> Option<Seq<char>>
    decreases k,
{
    match find(s, sep) {
        Some(i) => if k == 0 {
            Some(s.take(i))
        } else {
            piece(s.skip(i + sep.len()), sep, (k - 1) as nat)
        },
        None => if k == 0 {
            Some(s)
        } else {
            None
        },
    }
}

/// The piece with number `k` of `s` cut at each occurrence of `sep`.
pub fn split_piece(s: &str, sep: &str, k: usize) -> (r: Option<String>)
    requires
        sep@.len() > 0,
    ensures
        match r {
            Some(t) => piece(s@, sep@, k as nat) == Some(t@),
            None => piece(s@, sep@, k as nat) is None,
        },
{
    let v = chars_of(s);
    let p = chars_of(sep);
    let mut from: usize = 0;
    let mut left: usize = k;
    assert(v@.skip(0) =~= v@);
    loop
        invariant
            p@ == sep@,
            p@.len() > 0,
            from <= v@.len(),
            piece(v@, p@, k as nat) == piece(v@.skip(from as int), p@, left as nat),
            v@ == s@,
        decreases left,
    {
        let ghost rest = v@.skip(from as int);
        match position_from(&v, &p, from) {
            Some(i) => {
                if left == 0 {
                    let mut out = String::new();
                    for j in from..from + i
                        invariant
                            from + i <= v@.len(),
                            out@ == v@.subrange(from as int, j as int),
                    {
                        out.push(v[j]);
                        assert(out@ =~= v@.subrange(from as int, j + 1));
                    }
                    assert(out@ =~= rest.take(i as int));
                    return Some(out);
                }
                assert(rest.skip(i + p@.len()) =~= v@.skip(from + i + p@.len()));
                from = from + i + p.len();
                left = left - 1;
            },
            None => {
                if left == 0 {
                    let mut out = String::new();
                    for j in from..v.len()
                        invariant
                            from <= v@.len(),
                            out@ == v@.subrange(from as int, j as int),
                    {
                        out.push(v[j]);
                        assert(out@ =~= v@.subrange(from as int, j + 1));
                    }
                    assert(out@ =~= rest);
                    return Some(out);
                }
                return None;
            },
        }
    }
}

// ------------------------------------------------------------------ numbers

/// The digit of value `d`, upper case above 9.
pub open spec fn digit_char(d: int) -> char {
    if d < 10 {
        (48 + d) as char
    } else {
        (55 + d) as char
    }
}

/// The value of a digit in base 16; `None` for any other character.
pub open spec fn digit_value(c: char) -> Option<int> {
    if '0' <= c && c <= '9' {
        Some(c as int - 48)
    } else if 'a' <= c && c <= 'f' {
        Some(c as int - 87)
    } else if 'A' <= c && c <= 'F' {
        Some(c as int - 55)
    } else {
        None
    }
}

/// `c` is a hexadecimal digit.
pub open spec fn is_hex_digit(c: char) -> bool {
    digit_value(c) is Some
}

/// Every character of `s` is a hexadecimal digit.
pub open spec fn all_hex(s: Seq<char>) -> bool {
    forall|i: int| 0 <= i < s.len() ==> is_hex_digit(#[trigger] s[i])
}

/// `n` in decimal, without leading zeros.
pub open spec fn decimal(n: nat) -> Seq<char>
    decreases n,
{
    if n < 10 {
        seq![digit_char(n as int)]
    } else {
        decimal(n / 10).push(digit_char((n % 10) as int))
    }
}

/// The last `width` hexadecimal digits of `n`, upper case.
pub open spec fn hex(n: nat, width: nat) -> Seq<char>
    decreases width,
{
    if width == 0 {
        Seq::empty()
    } else {
        hex(n / 16, (width - 1) as nat).push(digit_char((n % 16) as int))
    }
}

/// The value of a row of digits in base `radix`; `None` when a character is no
/// digit of that base.
pub open spec fn number_value(s: Seq<char>, radix: int) -> Option<int>
    decreases s.len(),
{
    if s.len() == 0 {
        Some(0)
    } else {
        match (number_value(s.drop_last(), radix), digit_value(s.last())) {
            (Some(v), Some(d)) => if d < radix {
                Some(v * radix + d)
            } else {
                None
            },
            _ => None,
        }
    }
}

/// What a text reads as in base `radix`: digits, one `+` allowed before them,
/// with a value of at most `max`.
pub open spec fn parsed_number(s: Seq<char>, radix: int, max: int) -> Option<int> {
    let d = if s.len() > 0 && s[0] == '+' {
        s.skip(1)
    } else {
        s
    };
    match number_value(d, radix) {
        Some(v) => if d.len() > 0 && v <= max {
            Some(v)
        } else {
            None
        },
        None => None,
    }
}

/// A row of digits is worth at least as much as any of its beginnings.
proof fn lemma_number_prefix(s: Seq<char>, radix: int, i: int)
    requires
        radix >= 1,
        0 <= i <= s.len(),
    ensures
        number_value(s, radix) matches Some(v) ==> v >= 0 && (number_value(s.take(i), radix) matches Some(
            w,
        ) && w <= v),
    decreases s.len(),
{
    if i == s.len() {
        assert(s.take(i) =~= s);
        if s.len() > 0 {
            lemma_number_prefix(s.drop_last(), radix, 0);
            if let Some(v) = number_value(s.drop_last(), radix) {
                assert(v * radix >= 0) by (nonlinear_arith)
                    requires
                        v >= 0,
                        radix >= 1,
                ;
            }
        }
    } else {
        lemma_number_prefix(s.drop_last(), radix, i);
        assert(s.drop_last().take(i) =~= s.take(i));
        if let Some(v) = number_value(s.drop_last(), radix) {
            assert(v * radix >= v) by (nonlinear_arith)
                requires
                    v >= 0,
                    radix >= 1,
            ;
        }
    }
}

fn digit_of(c: char) -> (r: Option<u64>)
    ensures
        match r {
            Some(d) => digit_value(c) == Some(d as int) && d < 16,
            None => digit_value(c) is None,
        },
{
    if '0' <= c && c <= '9' {
        Some(((c as u8) - 48) as u64)
    } else if 'a' <= c && c <= 'f' {
        Some(((c as u8) - 87) as u64)
    } else if 'A' <= c && c <= 'F' {
        Some(((c as u8) - 55) as u64)
    } else {
        None
    }
}

/// Whether a character is a hexadecimal digit.
pub fn hex_digit(c: char) -> (r: bool)
    ensures
        r == is_hex_digit(c),
{
    digit_of(c).is_some()
}

/// Whether a text holds hexadecimal digits only.
pub fn hex_only(s: &str) -> (r: bool)
    ensures
        r == all_hex(s@),
{
    let v = chars_of(s);
    for i in 0..v.len()
        invariant
            v@ == s@,
            forall|j: int| 0 <= j < i ==> is_hex_digit(#[trigger] s@[j]),
    {
        if !hex_digit(v[i]) {
            assert(!is_hex_digit(s@[i as int]));
            return false;
        }
    }
    true
}

/// Reads a number in base `radix`: digits, one `+` allowed before them, with a
/// value of at most `max`.
pub fn parse_number(s: &str, radix: u64, max: u64) -> (r: Option<u64>)
    requires
        2 <= radix <= 16,
        max >= 15,
    ensures
        match r {
            Some(v) => parsed_number(s@, radix as int, max as int) == Some(v as int),
            None => parsed_number(s@, radix as int, max as int) is None,
        },
{
    let v = chars_of(s);
    let start: usize = if v.len() > 0 && v[0] == '+' {
        1
    } else {
        0
    };
    let ghost d = v@.skip(start as int);
    assert(v@.skip(0) =~= v@);
    if start == v.len() {
        return None;
    }
    let mut acc: u64 = 0;
    for i in start..v.len()
        invariant
            start <= v@.len(),
            d == v@.skip(start as int),
            2 <= radix <= 16,
            15 <= max,
            number_value(d.take(i - start), radix as int) == Some(acc as int),
            acc <= max,
            v@ == s@,
            d == if s@.len() > 0 && s@[0] == '+' {
                s@.skip(1)
            } else {
                s@
            },
    {
        let ghost k = i - start;
        assert(d.take(k + 1).drop_last() =~= d.take(k));
        proof {
            lemma_number_prefix(d, radix as int, k + 1);
        }
        match digit_of(v[i]) {
            Some(x) => {
                if x >= radix {
                    return None;
                }
                if acc > (max - x) / radix {
                    assert(acc * radix + x > max) by (nonlinear_arith)
                        requires
                            acc > (max - x) / (radix as int),
                            radix >= 2,
                    ;
                    return None;
                }
                assert(acc * radix + x <= max) by (nonlinear_arith)
                    requires
                        acc <= (max - x) / (radix as int),
                        radix >= 2,
                        x <= max,
                ;
                acc = acc * radix + x;
            },
            None => {
                return None;
            },
        }
    }
    assert(d.take(d.len() as int) =~= d);
    Some(acc)
}

fn digit(d: u64) -> (r: char)
    requires
        d < 16,
    ensures
        r == digit_char(d as int),
{
    if d < 10 {
        ((d as u8) + 48) as char
    } else {
        ((d as u8) + 55) as char
    }
}

/// Appends `n` in decimal.
pub fn push_decimal(out: &mut String, n: u64)
    ensures
        final(out)@ == old(out)@ + decimal(n as nat),
    decreases n,
{
    if n >= 10 {
        push_decimal(out, n / 10);
    }
    out.push(digit(n % 10));
}

/// Appends the last `width` hexadecimal digits of `n`.
pub fn push_hex(out: &mut String, n: u64, width: usize)
    ensures
        final(out)@ == old(out)@ + hex(n as nat, width as nat),
    decreases width,
{
    if width > 0 {
        push_hex(out, n / 16, width - 1);
        out.push(digit(n % 16));
    }
}

/// Appends a text.
pub fn push_text(out: &mut String, s: &str)
    ensures
        final(out)@ == old(out)@ + s@,
{
    out.append(s);
}

/// Bytes as two hexadecimal digits each, one space between them.
pub open spec fn hex_dump(b: Seq<u8>) -> Seq<char>
    decreases b.len(),
{
    if b.len() == 0 {
        Seq::empty()
    } else if b.len() == 1 {
        hex(b[0] as nat, 2)
    } else {
        hex_dump(b.drop_last()).push(' ') + hex(b.last() as nat, 2)
    }
}

/// Bytes as two hexadecimal digits each, one space between them.
pub fn to_hex(bytes: &[u8]) -> (r: String)
    ensures
        r@ == hex_dump(bytes@),
{
    let mut out = String::new();
    for i in 0..bytes.len()
        invariant
            out@ == hex_dump(bytes@.take(i as int)),
    {
        assert(bytes@.take(i + 1).drop_last() =~= bytes@.take(i as int));
        if i > 0 {
            out.push(' ');
        }
        push_hex(&mut out, bytes[i] as u64, 2);
        if i == 0 {
            assert(out@ =~= hex(bytes@[0] as nat, 2));
        }
    }
    assert(bytes@.take(bytes@.len() as int) =~= bytes@);
    out
}

/// Hexadecimal digits read back as the number they were written from.
pub proof fn law_hex_reads_back(n: nat, width: nat)
    requires
        n < vstd::arithmetic::power::pow(16, width),
    ensures
        hex(n, width).len() == width,
        all_hex(hex(n, width)),
        number_value(hex(n, width), 16) == Some(n as int),
    decreases width,
{
    vstd::arithmetic::power::lemma_pow_positive(16, width);
    if width == 0 {
        vstd::arithmetic::power::lemma_pow0(16);
    } else {
        let w = (width - 1) as nat;
        assert(vstd::arithmetic::power::pow(16, width) == 16 * vstd::arithmetic::power::pow(16, w))
            by {
            reveal(vstd::arithmetic::power::pow);
        }
        law_hex_reads_back(n / 16, w);
        let s = hex(n, width);
        assert(s.drop_last() =~= hex(n / 16, w));
        assert forall|i: int| 0 <= i < s.len() implies is_hex_digit(#[trigger] s[i]) by {
            if i < w {
                assert(s[i] == hex(n / 16, w)[i]);
            }
        }
    }
}

/// Four hexadecimal digits of a 16-bit number read back as that number.
pub proof fn law_hex4_reads_back(n: u16)
    ensures
        hex(n as nat, 4).len() == 4,
        all_hex(hex(n as nat, 4)),
        parsed_number(hex(n as nat, 4), 16, 0xFFFF) == Some(n as int),
{
    assert(vstd::arithmetic::power::pow(16, 4) == 0x10000) by {
        reveal_with_fuel(vstd::arithmetic::power::pow, 5);
    }
    law_hex_reads_back(n as nat, 4);
    let s = hex(n as nat, 4);
    assert(is_hex_digit(s[0]));
}

/// The text before the first separator ends where the separator stands.
pub proof fn lemma_find_sep(a: Seq<char>, sep: Seq<char>, rest: Seq<char>)
    requires
        sep.len() == 1,
        forall|i: int| 0 <= i < a.len() ==> a[i] != sep[0],
    ensures
        find(a + sep + rest, sep) == Some(a.len() as int),
        (a + sep + rest).take(a.len() as int) == a,
        (a + sep + rest).skip(a.len() + 1int) == rest,
{
    let s = a + sep + rest;
    assert(s.subrange(a.len() as int, a.len() + 1int) =~= sep);
    assert forall|j: int| 0 <= j < a.len() implies !occurs_at(s, sep, j) by {
        if occurs_at(s, sep, j) {
            assert(s.subrange(j, j + 1)[0] == sep[0]);
            assert(s[j] == a[j]);
        }
    }
    lemma_find_is_first(s, sep, a.len() as int);
    assert(s.take(a.len() as int) =~= a);
    assert(s.skip(a.len() + 1int) =~= rest);
}

/// Taking a pattern out of a text leaves what stands on either side of a character that
/// the pattern does not have to be looked at apart.
pub proof fn lemma_without_apart(x: Seq<char>, c: char, y: Seq<char>, pat: Seq<char>)
    requires
        pat.len() > 0,
        forall|i: int| 0 <= i < pat.len() ==> pat[i] != c,
    ensures
        without(x.push(c) + y, pat) == without(x, pat).push(c) + without(y, pat),
    decreases x.len(),
{
    let s = x.push(c) + y;
    let n = pat.len() as int;
    if starts_with(s, pat) {
        assert(s.subrange(0, n) == pat);
        if n > x.len() {
            assert(s.subrange(0, n)[x.len() as int] == c);
        }
        assert(x.subrange(0, n) =~= s.subrange(0, n));
        assert(s.skip(n) =~= x.skip(n).push(c) + y);
        lemma_without_apart(x.skip(n), c, y, pat);
    } else if s.len() < pat.len() {
        assert(without(x, pat).push(c) + without(y, pat) =~= s);
    } else {
        if x.len() == 0 {
            assert(s.skip(1) =~= y);
            assert(without(x, pat) =~= Seq::empty());
            assert(seq![c] + without(y, pat) =~= without(x, pat).push(c) + without(y, pat));
        } else {
            lemma_without_apart(x.skip(1), c, y, pat);
            assert(s.skip(1) =~= x.skip(1).push(c) + y);
            if starts_with(x, pat) {
                assert(s.subrange(0, n) =~= x.subrange(0, n));
            }
            let rest = without(x.skip(1), pat);
            assert(without(x, pat) =~= seq![x[0]] + rest);
            assert(seq![s[0]] + (rest.push(c) + without(y, pat)) =~= (seq![x[0]] + rest).push(c)
                + without(y, pat));
        }
    }
}

/// A text that does not have a pattern's first character stays whole.
pub proof fn lemma_without_absent(s: Seq<char>, pat: Seq<char>)
    requires
        pat.len() > 0,
        forall|i: int| 0 <= i < s.len() ==> s[i] != pat[0],
    ensures
        without(s, pat) == s,
    decreases s.len(),
{
    if s.len() >= pat.len() {
        if starts_with(s, pat) {
            assert(s.subrange(0, pat.len() as int)[0] == pat[0]);
        }
        lemma_without_absent(s.skip(1), pat);
        assert(seq![s[0]] + s.skip(1) =~= s);
    }
}

/// Nothing is left of a pattern that is taken out of itself.
pub proof fn lemma_without_self(pat: Seq<char>)
    ensures
        without(pat, pat).len() == 0,
{
    if pat.len() > 0 {
        assert(pat.subrange(0, pat.len() as int) =~= pat);
        let none = pat.skip(pat.len() as int);
        assert(without(none, pat) == none);
    }
}

// --------------------------------------------------------------------- laws

/// A text holds a pattern if and only if it is something, the pattern, and something.
pub proof fn law_contains_is_between(s: Seq<char>, pat: Seq<char>)
    ensures
        contains(s, pat) <==> exists|a: Seq<char>, b: Seq<char>| s == #[trigger] (a + pat + b),
        starts_with(s, pat) <==> exists|b: Seq<char>| s == #[trigger] (pat + b),
{
    let n = pat.len() as int;
    if contains(s, pat) {
        let i = choose|i: int| occurs_at(s, pat, i);
        assert(s =~= s.take(i) + pat + s.skip(i + n)) by {
            assert(s.subrange(i, i + n) == pat);
            assert forall|k: int| i <= k < i + n implies s[k] == pat[k - i] by {
                assert(s.subrange(i, i + n)[k - i] == s[k]);
            }
        }
    }
    if exists|a: Seq<char>, b: Seq<char>| s == #[trigger] (a + pat + b) {
        let (a, b) = choose|a: Seq<char>, b: Seq<char>| s == #[trigger] (a + pat + b);
        assert(s.subrange(a.len() as int, a.len() + n) =~= pat);
        assert(occurs_at(s, pat, a.len() as int));
    }
    if starts_with(s, pat) {
        assert(s =~= pat + s.skip(n)) by {
            assert(s.subrange(0, n) == pat);
            assert forall|k: int| 0 <= k < n implies s[k] == pat[k] by {
                assert(s.subrange(0, n)[k] == s[k]);
            }
        }
    }
    if exists|b: Seq<char>| s == #[trigger] (pat + b) {
        let b = choose|b: Seq<char>| s == #[trigger] (pat + b);
        assert(s.subrange(0, n) =~= pat);
    }
}

/// Two texts are the same whatever the case of their letters if and only if they are as
/// long as each other and each character of one is that of the other, or both are the
/// same ASCII letter, 32 code points apart.
pub proof fn law_case_is_all_that_may_differ(a: Seq<char>, b: Seq<char>)
    ensures
        same_ignoring_case(a, b) <==> a.len() == b.len() && forall|i: int|
            0 <= i < a.len() ==> {
                ||| #[trigger] a[i] == b[i]
                ||| 65 <= a[i] as int <= 90 && b[i] as int == a[i] as int + 32
                ||| 65 <= b[i] as int <= 90 && a[i] as int == b[i] as int + 32
            },
{
    let x = ascii_lower(a);
    let y = ascii_lower(b);
    if same_ignoring_case(a, b) {
        assert(x.len() == y.len());
        assert forall|i: int| 0 <= i < a.len() implies {
            ||| #[trigger] a[i] == b[i]
            ||| 65 <= a[i] as int <= 90 && b[i] as int == a[i] as int + 32
            ||| 65 <= b[i] as int <= 90 && a[i] as int == b[i] as int + 32
        } by {
            assert(x[i] == y[i]);
            assert(x[i] == lower_char(a[i]) && y[i] == lower_char(b[i]));
        }
    }
    if a.len() == b.len() && forall|i: int|
        0 <= i < a.len() ==> {
            ||| #[trigger] a[i] == b[i]
            ||| 65 <= a[i] as int <= 90 && b[i] as int == a[i] as int + 32
            ||| 65 <= b[i] as int <= 90 && a[i] as int == b[i] as int + 32
        } {
        assert forall|i: int| 0 <= i < x.len() implies x[i] == y[i] by {
            assert(x[i] == lower_char(a[i]) && y[i] == lower_char(b[i]));
            assert(a[i] == b[i] || 65 <= a[i] as int <= 90 || 65 <= b[i] as int <= 90);
        }
        assert(x =~= y);
    }
}

/// Upper case and lower case change the case of letters alone, and upper case leaves no
/// lower case letter.
pub proof fn law_case_folding_keeps_text(s: Seq<char>, i: int)
    ensures
        same_ignoring_case(ascii_upper(s), s),
        same_ignoring_case(ascii_lower(s), s),
        0 <= i < s.len() ==> !(97 <= ascii_upper(s)[i] as int <= 122) && !(65 <= ascii_lower(
            s,
        )[i] as int <= 90),
{
    assert(ascii_lower(ascii_upper(s)) =~= ascii_lower(s));
    assert(ascii_lower(ascii_lower(s)) =~= ascii_lower(s));
}

proof fn lemma_trim_start(s: Seq<char>) -> (k: int)
    ensures
        0 <= k <= s.len(),
        trim_start(s) == s.skip(k),
        forall|i: int| 0 <= i < k ==> is_space(#[trigger] s[i]),
        k < s.len() ==> !is_space(s[k]),
    decreases s.len(),
{
    if s.len() > 0 && is_space(s[0]) {
        let k = lemma_trim_start(s.skip(1));
        assert(s.skip(1).skip(k) =~= s.skip(k + 1));
        assert forall|i: int| 0 <= i < k + 1 implies is_space(#[trigger] s[i]) by {
            if i > 0 {
                assert(s.skip(1)[i - 1] == s[i]);
            }
        }
        k + 1
    } else {
        assert(s.skip(0) =~= s);
        0
    }
}

proof fn lemma_trim_end(s: Seq<char>) -> (k: int)
    ensures
        0 <= k <= s.len(),
        trim_end(s) == s.take(k),
        forall|i: int| k <= i < s.len() ==> is_space(#[trigger] s[i]),
        k > 0 ==> !is_space(s[k - 1]),
    decreases s.len(),
{
    if s.len() > 0 && is_space(s.last()) {
        let k = lemma_trim_end(s.drop_last());
        assert(s.drop_last().take(k) =~= s.take(k));
        assert forall|i: int| k <= i < s.len() implies is_space(#[trigger] s[i]) by {
            if i < s.len() - 1 {
                assert(s.drop_last()[i] == s[i]);
            }
        }
        if k > 0 {
            assert(s.drop_last()[k - 1] == s[k - 1]);
        }
        k
    } else {
        assert(s.take(s.len() as int) =~= s);
        s.len() as int
    }
}

/// Trimming takes white space off both ends and nothing else, and leaves none there.
pub proof fn law_trimming_takes_outer_space(s: Seq<char>)
    ensures
        ({
            let t = trimmed(s);
            &&& exists|a: int, b: int|
                #![trigger s.subrange(a, b)]
                0 <= a <= b <= s.len() && t == s.subrange(a, b) && (forall|i: int|
                    0 <= i < s.len() && !(a <= i < b) ==> is_space(#[trigger] s[i]))
            &&& t.len() > 0 ==> !is_space(t[0]) && !is_space(t.last())
        }),
{
    let a = lemma_trim_start(s);
    let u = s.skip(a);
    let k = lemma_trim_end(u);
    let t = trimmed(s);
    assert(t =~= s.subrange(a, a + k));
    assert forall|i: int| 0 <= i < s.len() && !(a <= i < a + k) implies is_space(
        #[trigger] s[i],
    ) by {
        if i >= a {
            assert(u[i - a] == s[i]);
        }
    }
    if t.len() > 0 {
        assert(t[0] == s[a]);
        assert(t.last() == u[k - 1]);
    }
}

/// A number in decimal reads back as that number, and does not begin with a zero unless
/// it is nothing but that.
pub proof fn law_decimal_reads_back(n: nat)
    ensures
        number_value(decimal(n), 10) == Some(n as int),
        decimal(n).len() > 0,
        n > 0 ==> decimal(n)[0] != '0',
    decreases n,
{
    if n >= 10 {
        law_decimal_reads_back(n / 10);
        assert(decimal(n).drop_last() =~= decimal(n / 10));
        assert(decimal(n)[0] == decimal(n / 10)[0]);
    } else {
        let s = decimal(n);
        assert(s.drop_last() =~= Seq::empty());
        assert(number_value(s.drop_last(), 10) == Some(0int));
    }
}

/// The bytes of a dump are read off in threes: two digits, then a blank unless the dump
/// ends.
pub proof fn law_dump_shows_every_byte(b: Seq<u8>, i: int)
    requires
        0 <= i < b.len(),
    ensures
        hex_dump(b).len() == 3 * b.len() - 1,
        number_value(hex_dump(b).subrange(3 * i, 3 * i + 2), 16) == Some(b[i] as int),
        i + 1 < b.len() ==> hex_dump(b)[3 * i + 2] == ' ',
    decreases b.len(),
{
    assert(vstd::arithmetic::power::pow(16, 2) == 256) by {
        reveal_with_fuel(vstd::arithmetic::power::pow, 3);
    }
    law_hex_reads_back(b[i] as nat, 2);
    law_hex_reads_back(b.last() as nat, 2);
    let s = hex_dump(b);
    if b.len() == 1 {
        assert(s.subrange(0, 2) =~= s);
    } else {
        let t = hex_dump(b.drop_last());
        law_dump_shows_every_byte(b.drop_last(), 0);
        if i < b.len() - 1 {
            law_dump_shows_every_byte(b.drop_last(), i);
            assert(s.subrange(3 * i, 3 * i + 2) =~= t.subrange(3 * i, 3 * i + 2));
            if i + 2 < b.len() {
                assert(s[3 * i + 2] == t[3 * i + 2]);
            }
        } else {
            assert(s.subrange(3 * i, 3 * i + 2) =~= hex(b[i] as nat, 2));
        }
    }
}

/// A pattern that is found stands within the text.
pub proof fn lemma_find_bounds(s: Seq<char>, pat: Seq<char>)
    requires
        find(s, pat) is Some,
    ensures
        first_at(s, pat, find(s, pat)->0),
        0 <= find(s, pat)->0,
        find(s, pat)->0 + pat.len() <= s.len(),
{
    let k = choose|k: int| occurs_at(s, pat, k);
    lemma_first_below(s, pat, k);
    let i = choose|i: int| first_at(s, pat, i);
    lemma_find_is_first(s, pat, i);
}

proof fn lemma_first_below(s: Seq<char>, pat: Seq<char>, k: int)
    requires
        occurs_at(s, pat, k),
    ensures
        exists|i: int| first_at(s, pat, i),
    decreases k,
{
    if exists|j: int| 0 <= j < k && occurs_at(s, pat, j) {
        let j = choose|j: int| 0 <= j < k && occurs_at(s, pat, j);
        lemma_first_below(s, pat, j);
    } else {
        assert(first_at(s, pat, k));
    }
}

/// What stands between two texts stands in the whole.
pub proof fn lemma_between(a: Seq<char>, pat: Seq<char>, b: Seq<char>)
    ensures
        contains(a + pat + b, pat),
        starts_with(pat + b, pat),
{
    let s = a + pat + b;
    let i = a.len() as int;
    assert(s.subrange(i, i + pat.len()) =~= pat);
    assert(occurs_at(s, pat, i));
    assert((pat + b).subrange(0, pat.len() as int) =~= pat);
}

} // verus!
