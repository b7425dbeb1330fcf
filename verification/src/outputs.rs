//! What the program hands to the system or to files: texts in fixed buffers, the
//! entry for starting with the session, pictures of the strip, and the log.

use vstd::prelude::*;

use crate::text::{chars_of, from_chars, push_decimal, push_text};
use crate::text;
use crate::wide;
use crate::wide::{encode, wide_path};

verus! {

// --------------------------------------------------------------- fixed buffers

/// How many units of a buffer may be used.
pub open spec fn usable(len: nat, max: usize) -> int {
    if len < max {
        len as int
    } else {
        max as int
    }
}

/// Writes a text in UTF-16 into a buffer, of which `max` units may be used. What
/// does not fit is cut, and the last unit that may be used is zero.
pub fn fill_wchars(buf: &mut Vec<u16>, s: &str, max: usize)
    ensures
        ({
            let cap = usable(old(buf)@.len(), max);
            let units = wide::encoded(s@);
            &&& final(buf)@.len() == old(buf)@.len()
            &&& forall|i: int|
                0 <= i < old(buf)@.len() ==> #[trigger] final(buf)@[i] == if i == cap - 1 {
                    0u16
                } else if i < cap - 1 && i < units.len() {
                    units[i]
                } else {
                    old(buf)@[i]
                }
        }),
{
    let ghost start = buf@;
    let cap: usize = if buf.len() < max {
        buf.len()
    } else {
        max
    };
    let units = encode(s);
    let mut i: usize = 0;
    while i + 1 < cap && i < units.len()
        invariant
            cap == usable(start.len(), max),
            buf@.len() == start.len(),
            i == 0 || i < cap,
            i <= units@.len(),
            forall|k: int|
                0 <= k < start.len() ==> #[trigger] buf@[k] == if k < i {
                    units@[k]
                } else {
                    start[k]
                },
        decreases units@.len() - i,
    {
        buf[i] = units[i];
        i = i + 1;
    }
    if cap > 0 {
        buf[cap - 1] = 0;
    }
}

// ------------------------------------------------------- starting with the session

/// A path with backslashes, between quotation marks.
pub open spec fn quoted_path(path: Seq<char>) -> Seq<char> {
    seq!['"'] + path.map_values(
        |c: char|
            if c == '/' {
                '\\'
            } else {
                c
            },
    ) + seq!['"']
}

/// Units as bytes, low byte first.
pub open spec fn low_first(units: Seq<u16>) -> Seq<u8> {
    Seq::new(
        units.len() * 2,
        |i: int|
            if i % 2 == 0 {
                (units[i / 2] % 256) as u8
            } else {
                (units[i / 2] / 256) as u8
            },
    )
}

fn quote_path(path: &str) -> (r: String)
    ensures
        r@ == quoted_path(path@),
{
    let v = chars_of(path);
    let mut out: Vec<char> = Vec::new();
    out.push('"');
    let ghost mapped = path@.map_values(
        |c: char|
            if c == '/' {
                '\\'
            } else {
                c
            },
    );
    assert(out@ =~= seq!['"'] + mapped.take(0));
    for i in 0..v.len()
        invariant
            v@ == path@,
            mapped == path@.map_values(
                |c: char|
                    if c == '/' {
                        '\\'
                    } else {
                        c
                    },
            ),
            out@ == seq!['"'] + mapped.take(i as int),
    {
        let c: char = if v[i] == '/' {
            '\\'
        } else {
            v[i]
        };
        out.push(c);
        assert(out@ =~= seq!['"'] + mapped.take(i + 1));
    }
    assert(mapped.take(mapped.len() as int) =~= mapped);
    out.push('"');
    assert(out@ =~= quoted_path(path@));
    from_chars(&out)
}

/// The value of the entry that starts the program with the session: its quoted path
/// in UTF-16 with a zero behind it, as bytes.
pub fn autostart_value(path: &str) -> (r: Vec<u8>)
    ensures
        r@ == low_first(wide::encoded(quoted_path(path@)).push(0)),
{
    let q = quote_path(path);
    let units = wide_path(q.as_str());
    let mut out: Vec<u8> = Vec::new();
    let ghost all = low_first(units@);
    for i in 0..units.len()
        invariant
            all == low_first(units@),
            out@ == all.take(2 * i as int),
    {
        let u: u16 = units[i];
        out.push((u % 256) as u8);
        out.push((u / 256) as u8);
        assert(out@ =~= all.take(2 * (i + 1)));
    }
    assert(all.take(2 * units@.len() as int) =~= all);
    out
}

// ------------------------------------------------------------------- pictures

/// A number as four bytes, low byte first.
pub open spec fn four_bytes(v: u32) -> Seq<u8> {
    seq![
        (v % 256) as u8,
        (v / 256 % 256) as u8,
        (v / 65536 % 256) as u8,
        (v / 16777216) as u8,
    ]
}

fn push_four(out: &mut Vec<u8>, v: u32)
    ensures
        final(out)@ == old(out)@ + four_bytes(v),
{
    out.push((v % 256) as u8);
    out.push((v / 256 % 256) as u8);
    out.push((v / 65536 % 256) as u8);
    out.push((v / 16777216) as u8);
    assert(out@ =~= old(out)@ + four_bytes(v));
}

/// The low 32 bits of a number.
pub open spec fn low_32(v: int) -> u32 {
    (v % 0x1_0000_0000) as u32
}

/// The head of a picture file with 32 bits per pixel, `n` bytes of pixels.
pub open spec fn bmp_head(w: u32, h: u32, n: int) -> Seq<u8> {
    seq![0x42u8, 0x4Du8] + four_bytes(low_32(n + 54)) + four_bytes(0) + four_bytes(54) + four_bytes(
        40,
    ) + four_bytes(w) + four_bytes(h) + seq![1u8, 0u8, 32u8, 0u8] + four_bytes(0) + four_bytes(
        low_32(n),
    ) + four_bytes(0) + four_bytes(0) + four_bytes(0) + four_bytes(0)
}

/// The first `rows` rows of pixels, the last one first.
pub open spec fn bottom_up(pixels: Seq<u8>, stride: int, rows: int) -> Seq<u8>
    decreases rows,
{
    if rows <= 0 {
        Seq::empty()
    } else {
        pixels.subrange((rows - 1) * stride, rows * stride) + bottom_up(pixels, stride, rows - 1)
    }
}

fn push_bmp_head(out: &mut Vec<u8>, w: u32, h: u32, n: u64)
    ensures
        final(out)@ == old(out)@ + bmp_head(w, h, n as int),
{
    out.push(0x42);
    out.push(0x4D);
    let low: u32 = (n % 0x1_0000_0000) as u32;
    let size: u32 = ((low as u64 + 54) % 0x1_0000_0000) as u32;
    assert(size == low_32(n + 54));
    push_four(out, size);
    push_four(out, 0);
    push_four(out, 54);
    push_four(out, 40);
    push_four(out, w);
    push_four(out, h);
    out.push(1);
    out.push(0);
    out.push(32);
    out.push(0);
    push_four(out, 0);
    push_four(out, low);
    push_four(out, 0);
    push_four(out, 0);
    push_four(out, 0);
    push_four(out, 0);
    assert(out@ =~= old(out)@ + bmp_head(w, h, n as int));
}

/// A picture file of `w` by `h` pixels of four bytes each, which are given from the
/// top row down; nothing if there are too few of them.
pub fn write_bmp(w: u32, h: u32, pixels: &[u8]) -> (r: Option<Vec<u8>>)
    ensures
        match r {
            Some(file) => pixels@.len() >= w * 4 * h && file@ == bmp_head(
                w,
                h,
                pixels@.len() as int,
            ) + bottom_up(pixels@, w * 4, h as int),
            None => pixels@.len() < w * 4 * h,
        },
{
    let n: usize = pixels.len();
    assert(0 <= w * 4 * h <= 0x4_0000_0000_0000_0000) by (nonlinear_arith)
        requires
            0 <= w <= 0xFFFF_FFFF,
            0 <= h <= 0xFFFF_FFFF,
    ;
    let need: u128 = w as u128 * 4 * h as u128;
    if (n as u128) < need {
        return None;
    }
    let mut out: Vec<u8> = Vec::new();
    push_bmp_head(&mut out, w, h, n as u64);
    let ghost head = bmp_head(w, h, n as int);
    assert(out@ =~= head);
    if w == 0 || h == 0 {
        proof {
            if w == 0 {
                lemma_empty_rows(pixels@, h as int);
            }
        }
        assert(out@ =~= head + bottom_up(pixels@, w * 4, h as int));
        return Some(out);
    }
    assert(w * 4 <= w * 4 * h) by (nonlinear_arith)
        requires
            w >= 0,
            h >= 1,
    ;
    assert(h <= w * 4 * h) by (nonlinear_arith)
        requires
            w >= 1,
            h >= 0,
    ;
    let stride: usize = (w as u64 * 4) as usize;
    let mut row: usize = h as usize;
    assert(stride * row == w * 4 * h);
    while row > 0
        invariant
            n == pixels@.len(),
            stride == w * 4,
            row <= h,
            stride * h <= n,
            out@ + bottom_up(pixels@, stride as int, row as int) == head + bottom_up(
                pixels@,
                stride as int,
                h as int,
            ),
        decreases row,
    {
        let ghost done = out@;
        let r: usize = row - 1;
        assert(r * stride + stride == row * stride && row * stride <= n) by (nonlinear_arith)
            requires
                r == row - 1,
                row <= h,
                stride * h <= n,
                row >= 0,
                stride >= 0,
        ;
        assert(0 <= r * stride) by (nonlinear_arith)
            requires
                r >= 0,
                stride >= 0,
        ;
        let from: usize = r * stride;
        let ghost line = pixels@.subrange(from as int, from + stride);
        let mut k: usize = 0;
        assert(out@ =~= done + line.take(0));
        while k < stride
            invariant
                n == pixels@.len(),
                k <= stride,
                from + stride <= n,
                line == pixels@.subrange(from as int, from + stride),
                out@ == done + line.take(k as int),
            decreases stride - k,
        {
            out.push(pixels[from + k]);
            k = k + 1;
            assert(out@ =~= done + line.take(k as int));
        }
        assert(line.take(stride as int) =~= line);
        assert(out@ + bottom_up(pixels@, stride as int, r as int) =~= done + bottom_up(
            pixels@,
            stride as int,
            row as int,
        ));
        row = r;
    }
    assert(out@ + bottom_up(pixels@, stride as int, 0) =~= out@);
    Some(out)
}

proof fn lemma_empty_rows(pixels: Seq<u8>, rows: int)
    ensures
        bottom_up(pixels, 0, rows) == Seq::<u8>::empty(),
    decreases rows,
{
    if rows > 0 {
        lemma_empty_rows(pixels, rows - 1);
        assert((rows - 1) * 0 == 0 && rows * 0 == 0);
        assert(bottom_up(pixels, 0, rows) =~= Seq::empty());
    }
}

// ------------------------------------------------------------------------ log

/// The largest log file.
pub const MAX_LOG_BYTES: u64 = 1_048_576;

/// The size of the log file is looked at every so many lines.
pub const SIZE_CHECK_EVERY: u32 = 64;

/// Whether the size of the log file is looked at before a line, after `written`
/// lines.
pub fn checks_size(written: u32) -> (r: bool)
    ensures
        r == (written % SIZE_CHECK_EVERY == 0),
{
    written % SIZE_CHECK_EVERY == 0
}

/// Whether a log file of some length is put aside.
pub fn rotates(len: u64) -> (r: bool)
    ensures
        r == (len > MAX_LOG_BYTES),
{
    len > MAX_LOG_BYTES
}

/// A text names a file: it is one component of a path that is neither the directory
/// itself nor the one above it.
pub open spec fn is_file_name(name: Seq<char>) -> bool {
    &&& name.len() > 0
    &&& name != seq!['.']
    &&& name != seq!['.', '.']
    &&& !name.contains('/')
    &&& !name.contains('\\')
}

/// The number of characters before the extension among the first `n` of a file name:
/// those before the last dot, unless the name begins with it.
pub open spec fn stem_len(name: Seq<char>, n: int) -> int
    decreases n,
{
    if n <= 1 {
        name.len() as int
    } else if name[n - 1] == '.' {
        n - 1
    } else {
        stem_len(name, n - 1)
    }
}

/// The name under which a log file is put aside, next to it: its own with `log.1` for
/// an extension. There is none where the text names no file.
pub fn rotated_name(name: &str) -> (r: Option<String>)
    ensures
        match r {
            Some(n) => is_file_name(name@) && n@ == name@.take(
                stem_len(name@, name@.len() as int),
            ) + ".log.1"@,
            None => !is_file_name(name@),
        },
{
    let v = chars_of(name);
    for i in 0..v.len()
        invariant
            v@ == name@,
            forall|j: int| 0 <= j < i ==> v@[j] != '/' && v@[j] != '\\',
    {
        if v[i] == '/' || v[i] == '\\' {
            assert(name@.contains(v@[i as int]));
            return None;
        }
    }
    if v.len() == 0 || (v.len() == 1 && v[0] == '.') || (v.len() == 2 && v[0] == '.' && v[1]
        == '.') {
        assert(name@.len() == 0 || name@ =~= seq!['.'] || name@ =~= seq!['.', '.']);
        return None;
    }
    assert(is_file_name(name@)) by {
        assert(seq!['.'].len() == 1 && seq!['.'][0] == '.');
        assert(seq!['.', '.'].len() == 2 && seq!['.', '.'][0] == '.' && seq!['.', '.'][1] == '.');
    }
    let mut n: usize = v.len();
    while n > 1 && v[n - 1] != '.'
        invariant
            v@ == name@,
            n <= v@.len(),
            stem_len(name@, name@.len() as int) == stem_len(name@, n as int),
        decreases n,
    {
        n = n - 1;
    }
    let stem: usize = if n > 1 {
        n - 1
    } else {
        v.len()
    };
    let mut out = String::new();
    for i in 0..stem
        invariant
            v@ == name@,
            stem <= v@.len(),
            out@ == name@.take(i as int),
    {
        out.push(v[i]);
        assert(out@ =~= name@.take(i + 1));
    }
    push_text(&mut out, ".log.1");
    Some(out)
}

/// A line of the log: the seconds since 1970 if they are known, and the message.
pub fn log_line(seconds: Option<u64>, msg: &str) -> (r: String)
    ensures
        r@ == (match seconds {
            Some(s) => text::decimal(s as nat),
            None => Seq::empty(),
        }) + " "@ + msg@,
{
    let mut line = String::new();
    match seconds {
        Some(s) => push_decimal(&mut line, s),
        None => {},
    }
    push_text(&mut line, " ");
    push_text(&mut line, msg);
    assert(line@ =~= (match seconds {
        Some(s) => text::decimal(s as nat),
        None => Seq::empty(),
    }) + " "@ + msg@);
    line
}

// ----------------------------------------------------------------------- laws

/// A picture file is as long as its head says, where that fits 32 bits and no
/// pixel is left over.
pub proof fn law_picture_is_as_long_as_it_says(pixels: Seq<u8>, w: u32, h: u32)
    requires
        pixels.len() == w * 4 * h,
        pixels.len() + 54 <= u32::MAX,
    ensures
        ({
            let file = bmp_head(w, h, pixels.len() as int) + bottom_up(pixels, w * 4, h as int);
            &&& file.len() == pixels.len() + 54
            &&& file.subrange(2, 6) == four_bytes(file.len() as u32)
        }),
{
    assert(h * (w * 4) == w * 4 * h) by (nonlinear_arith);
    lemma_rows_length(pixels, w * 4, h as int);
    lemma_head(w, h, pixels.len() as int);
    let head = bmp_head(w, h, pixels.len() as int);
    let file = head + bottom_up(pixels, w * 4, h as int);
    assert(file.subrange(2, 6) =~= head.subrange(2, 6));
}

proof fn lemma_head(w: u32, h: u32, n: int)
    ensures
        bmp_head(w, h, n).len() == 54,
        bmp_head(w, h, n).subrange(2, 6) == four_bytes(low_32(n + 54)),
{
    let sign = seq![0x42u8, 0x4Du8];
    let size = four_bytes(low_32(n + 54));
    let first = sign + size;
    assert(first.subrange(2, 6) =~= size);
    let rest = four_bytes(0) + four_bytes(54) + four_bytes(40) + four_bytes(w) + four_bytes(h)
        + seq![1u8, 0u8, 32u8, 0u8] + four_bytes(0) + four_bytes(low_32(n)) + four_bytes(0)
        + four_bytes(0) + four_bytes(0) + four_bytes(0);
    assert(bmp_head(w, h, n) =~= first + rest);
    assert((first + rest).subrange(2, 6) =~= first.subrange(2, 6));
}

proof fn lemma_rows_length(pixels: Seq<u8>, stride: int, rows: int)
    requires
        stride >= 0,
        rows >= 0,
        rows * stride <= pixels.len(),
    ensures
        bottom_up(pixels, stride, rows).len() == rows * stride,
    decreases rows,
{
    if rows > 0 {
        assert((rows - 1) * stride + stride == rows * stride && 0 <= (rows - 1) * stride)
            by (nonlinear_arith)
            requires
                rows >= 1,
                stride >= 0,
        ;
        lemma_rows_length(pixels, stride, rows - 1);
    } else {
        assert(rows * stride == 0) by (nonlinear_arith)
            requires
                rows == 0,
        ;
    }
}

/// No more of a buffer is used than it has and than is allowed, and no less than both.
pub proof fn law_buffers_are_used_within_bounds(len: nat, max: usize)
    ensures
        usable(len, max) <= len,
        usable(len, max) <= max,
        usable(len, max) == len || usable(len, max) == max,
{
}

/// A quoted path stands between quotation marks, each slash of it is a backslash, and
/// all else is as it was.
pub proof fn law_quoting_keeps_path(path: Seq<char>, i: int)
    requires
        0 <= i < path.len(),
    ensures
        ({
            let q = quoted_path(path);
            &&& q.len() == path.len() + 2
            &&& q[0] == '"' && q.last() == '"'
            &&& path[i] == '/' ==> q[i + 1] == '\\'
            &&& path[i] != '/' ==> q[i + 1] == path[i]
            &&& !q.contains('/')
        }),
{
    let q = quoted_path(path);
    assert forall|k: int| 0 <= k < q.len() implies q[k] != '/' by {
        if 0 < k < q.len() - 1 {
            assert(q[k] == if path[k - 1] == '/' {
                '\\'
            } else {
                path[k - 1]
            });
        }
    }
}

/// The bytes of units give the units back, two bytes for each, the low one first.
pub proof fn law_bytes_give_units_back(units: Seq<u16>, i: int)
    requires
        0 <= i < units.len(),
    ensures
        low_first(units).len() == 2 * units.len(),
        low_first(units)[2 * i] + 256 * low_first(units)[2 * i + 1] == units[i],
{
    assert((2 * i) % 2 == 0 && (2 * i) / 2 == i && (2 * i + 1) % 2 == 1 && (2 * i + 1) / 2 == i);
}

/// Four bytes give back the number that they were made of.
pub proof fn law_four_bytes_give_number_back(v: u32)
    ensures
        ({
            let b = four_bytes(v);
            &&& b.len() == 4
            &&& b[0] + 0x100 * b[1] + 0x1_0000 * b[2] + 0x100_0000 * b[3] == v
        }),
{
}

/// The head of a picture file says what it is: a bitmap of the given width and height,
/// with one plane of 32 bits per pixel, not compressed, whose pixels follow the head.
pub proof fn law_picture_head_tells_size(w: u32, h: u32, n: int)
    ensures
        ({
            let head = bmp_head(w, h, n);
            &&& head.len() == 54
            &&& head[0] == 0x42 && head[1] == 0x4D
            &&& head.subrange(10, 14) == four_bytes(54)
            &&& head.subrange(14, 18) == four_bytes(40)
            &&& head.subrange(18, 22) == four_bytes(w)
            &&& head.subrange(22, 26) == four_bytes(h)
            &&& head.subrange(26, 30) == seq![1u8, 0u8, 32u8, 0u8]
            &&& head.subrange(30, 34) == four_bytes(0)
            &&& 0 <= n <= u32::MAX ==> head.subrange(34, 38) == four_bytes(n as u32)
        }),
{
    let head = bmp_head(w, h, n);
    assert(head.subrange(10, 14) =~= four_bytes(54));
    assert(head.subrange(14, 18) =~= four_bytes(40));
    assert(head.subrange(18, 22) =~= four_bytes(w));
    assert(head.subrange(22, 26) =~= four_bytes(h));
    assert(head.subrange(26, 30) =~= seq![1u8, 0u8, 32u8, 0u8]);
    assert(head.subrange(30, 34) =~= four_bytes(0));
    assert(head.subrange(34, 38) =~= four_bytes(low_32(n)));
}

/// A picture file holds every row of pixels, the last one first.
pub proof fn law_picture_rows_are_upside_down(pixels: Seq<u8>, stride: int, rows: int, k: int)
    requires
        stride >= 0,
        0 <= k < rows,
        rows * stride <= pixels.len(),
    ensures
        0 <= k * stride <= (k + 1) * stride <= bottom_up(pixels, stride, rows).len(),
        bottom_up(pixels, stride, rows).subrange(k * stride, (k + 1) * stride) == pixels.subrange(
            (rows - 1 - k) * stride,
            (rows - k) * stride,
        ),
    decreases rows,
{
    lemma_rows_length(pixels, stride, rows);
    let all = bottom_up(pixels, stride, rows);
    assert(0 <= (rows - 1) * stride && (rows - 1) * stride + stride == rows * stride)
        by (nonlinear_arith)
        requires
            rows >= 1,
            stride >= 0,
    ;
    assert(0 <= k * stride && (k + 1) * stride == k * stride + stride && (k + 1) * stride <= rows
        * stride) by (nonlinear_arith)
        requires
            0 <= k < rows,
            stride >= 0,
    ;
    if k == 0 {
        assert(k * stride == 0) by (nonlinear_arith)
            requires
                k == 0,
        ;
        assert(all.subrange(0, stride) =~= pixels.subrange((rows - 1) * stride, rows * stride));
    } else {
        let j = k - 1;
        let rest = bottom_up(pixels, stride, rows - 1);
        law_picture_rows_are_upside_down(pixels, stride, rows - 1, j);
        lemma_rows_length(pixels, stride, rows - 1);
        assert(k * stride == j * stride + stride && (j + 1) * stride == k * stride)
            by (nonlinear_arith)
            requires
                k == j + 1,
        ;
        assert(all.subrange(k * stride, (k + 1) * stride) =~= rest.subrange(
            j * stride,
            (j + 1) * stride,
        ));
    }
}

proof fn lemma_stem(name: Seq<char>, n: int, k: int)
    requires
        0 < k < n <= name.len(),
        name[k] == '.',
        forall|i: int| k < i < n ==> name[i] != '.',
    ensures
        stem_len(name, n) == k,
    decreases n,
{
    if n - 1 > k {
        lemma_stem(name, n - 1, k);
    }
}

proof fn lemma_no_stem(name: Seq<char>, n: int)
    requires
        n <= name.len(),
        forall|i: int| 0 < i < n ==> name[i] != '.',
    ensures
        stem_len(name, n) == name.len(),
    decreases n,
{
    if n > 1 {
        lemma_no_stem(name, n - 1);
    }
}

/// A log is put aside under its own name, with `log.1` where its extension was: what
/// follows the last dot is dropped, and a name without a dot, or with none but the one
/// that it begins with, is kept whole.
pub proof fn law_rotated_name_replaces_extension(stem: Seq<char>, ext: Seq<char>)
    requires
        stem.len() > 0,
        !ext.contains('.'),
    ensures
        stem_len(stem + seq!['.'] + ext, (stem + seq!['.'] + ext).len() as int) == stem.len(),
        stem_len(ext, ext.len() as int) == ext.len(),
        stem_len(seq!['.'] + ext, (seq!['.'] + ext).len() as int) == ext.len() + 1,
{
    let name = stem + seq!['.'] + ext;
    assert forall|i: int| stem.len() < i < name.len() implies name[i] != '.' by {
        assert(name[i] == ext[i - stem.len() - 1]);
    }
    lemma_stem(name, name.len() as int, stem.len() as int);
    assert forall|i: int| 0 < i < ext.len() implies ext[i] != '.' by {
        assert(ext.contains(ext[i]));
    }
    lemma_no_stem(ext, ext.len() as int);
    let hidden = seq!['.'] + ext;
    assert forall|i: int| 0 < i < hidden.len() implies hidden[i] != '.' by {
        assert(hidden[i] == ext[i - 1]);
    }
    lemma_no_stem(hidden, hidden.len() as int);
}

/// A text names a file unless it is empty, one or two dots, or has a separator in it.
pub proof fn law_file_names_are_single(a: Seq<char>, b: Seq<char>)
    ensures
        !is_file_name(a + seq!['/'] + b),
        !is_file_name(a + seq!['\\'] + b),
        !is_file_name(Seq::empty()),
        !is_file_name(seq!['.']) && !is_file_name(seq!['.', '.']),
        a.len() > 2 && !a.contains('/') && !a.contains('\\') ==> is_file_name(a),
{
    let s = a + seq!['/'] + b;
    let t = a + seq!['\\'] + b;
    assert(s[a.len() as int] == '/' && t[a.len() as int] == '\\');
    assert(seq!['.'].len() == 1 && seq!['.', '.'].len() == 2);
}

} // verus!
