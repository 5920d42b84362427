//! Vectors as text: words of 32 bits, lowest byte first, in Base64.
use crate::text::{chars_of, same, text_of};
use vstd::prelude::*;

verus! {

// ---------------------------------------------------------------------------
// Digits.
// ---------------------------------------------------------------------------

/// The character of a digit below 64.
pub open spec fn digit64(n: int) -> char {
    if n < 26 {
        ('A' as int + n) as char
    } else if n < 52 {
        ('a' as int + n - 26) as char
    } else if n < 62 {
        ('0' as int + n - 52) as char
    } else if n == 62 {
        '+'
    } else {
        '/'
    }
}

fn write_digit(n: u32) -> (c: char)
    requires
        n < 64,
    ensures
        c == digit64(n as int),
{
    if n < 26 {
        (('A' as u8) + (n as u8)) as char
    } else if n < 52 {
        (('a' as u8) + (n as u8 - 26)) as char
    } else if n < 62 {
        (('0' as u8) + (n as u8 - 52)) as char
    } else if n == 62 {
        '+'
    } else {
        '/'
    }
}

/// Reads a digit; what no digit is written as gives nothing.
fn read_digit(c: char) -> (r: Option<u32>)
    ensures
        match r {
            Some(n) => n < 64 && digit64(n as int) == c,
            None => forall|n: int| 0 <= n < 64 ==> #[trigger] digit64(n) != c,
        },
{
    if 'A' <= c && c <= 'Z' {
        Some(c as u32 - 'A' as u32)
    } else if 'a' <= c && c <= 'z' {
        Some(c as u32 - 'a' as u32 + 26)
    } else if '0' <= c && c <= '9' {
        Some(c as u32 - '0' as u32 + 52)
    } else if c == '+' {
        Some(62)
    } else if c == '/' {
        Some(63)
    } else {
        None
    }
}

/// Digits are told apart by their characters, and none is the padding.
proof fn lemma_digits(m: int, n: int)
    requires
        0 <= m < 64,
        0 <= n < 64,
    ensures
        digit64(m) == digit64(n) ==> m == n,
        digit64(m) != '=',
{
}

// ---------------------------------------------------------------------------
// Bytes.
// ---------------------------------------------------------------------------

/// Three bytes as one number, the first one highest; what is missing counts as zero.
pub open spec fn group_value(b: Seq<u8>) -> int {
    (if b.len() > 0 {
        b[0] as int * 65536
    } else {
        0
    }) + (if b.len() > 1 {
        b[1] as int * 256
    } else {
        0
    }) + (if b.len() > 2 {
        b[2] as int
    } else {
        0
    })
}

/// One to three bytes as four characters, padded at the end.
pub open spec fn group_text(b: Seq<u8>) -> Seq<char> {
    let v = group_value(b);
    seq![
        digit64(v / 262144),
        digit64(v / 4096 % 64),
        if b.len() > 1 {
            digit64(v / 64 % 64)
        } else {
            '='
        },
        if b.len() > 2 {
            digit64(v % 64)
        } else {
            '='
        },
    ]
}

/// Bytes in Base64.
pub open spec fn encoded(b: Seq<u8>) -> Seq<char>
    decreases b.len(),
{
    if b.len() == 0 {
        Seq::empty()
    } else if b.len() <= 3 {
        group_text(b)
    } else {
        group_text(b.take(3)) + encoded(b.skip(3))
    }
}

/// Writes bytes in Base64.
pub fn encode(bytes: &Vec<u8>) -> (s: String)
    ensures
        s@ == encoded(bytes@),
{
    let mut out: Vec<char> = Vec::new();
    let n: usize = bytes.len();
    let mut i: usize = 0;
    assert(bytes@.skip(0) =~= bytes@);
    assert(out@ + encoded(bytes@) =~= encoded(bytes@));
    while i < n
        invariant
            0 <= i <= n,
            n == bytes.len(),
            out@ + encoded(bytes@.skip(i as int)) == encoded(bytes@),
        decreases n - i,
    {
        let ghost rest = bytes@.skip(i as int);
        let ghost before = out@;
        let left: usize = n - i;
        let second: u32 = if left > 1 { bytes[i + 1] as u32 } else { 0 };
        let third: u32 = if left > 2 { bytes[i + 2] as u32 } else { 0 };
        let v: u32 = bytes[i] as u32 * 65536 + second * 256 + third;
        let ghost group = if left <= 3 {
            rest
        } else {
            rest.take(3)
        };
        assert(v == group_value(group));
        out.push(write_digit(v / 262144));
        out.push(write_digit(v / 4096 % 64));
        out.push(if left > 1 { write_digit(v / 64 % 64) } else { '=' });
        out.push(if left > 2 { write_digit(v % 64) } else { '=' });
        assert(out@ =~= before + group_text(group));
        if left <= 3 {
            i = n;
            assert(bytes@.skip(n as int) =~= Seq::<u8>::empty());
            assert(out@ + encoded(bytes@.skip(n as int)) =~= before + encoded(rest));
        } else {
            i = i + 3;
            assert(rest.skip(3) =~= bytes@.skip(i as int));
            assert(out@ + encoded(bytes@.skip(i as int)) =~= before + encoded(rest));
        }
    }
    assert(bytes@.skip(n as int) =~= Seq::<u8>::empty());
    assert(out@ + Seq::<char>::empty() =~= out@);
    text_of(out.as_slice())
}

/// A number of 24 bits is made of four digits and of three bytes.
proof fn lemma_parts(v: int)
    requires
        0 <= v < 16777216,
    ensures
        v == v / 262144 * 262144 + v / 4096 % 64 * 4096 + v / 64 % 64 * 64 + v % 64,
        0 <= v / 262144 < 64,
{
    let x = v as u32;
    assert(x == x / 262144 * 262144 + x / 4096 % 64 * 4096 + x / 64 % 64 * 64 + x % 64)
        by (bit_vector)
        requires
            x < 16777216,
    ;
}

/// The bytes of a group from its value.
proof fn lemma_group_bytes(b: Seq<u8>)
    requires
        1 <= b.len() <= 3,
    ensures
        0 <= group_value(b) < 16777216,
        b[0] == group_value(b) / 65536,
        b.len() > 1 ==> b[1] == group_value(b) / 256 % 256,
        b.len() > 2 ==> b[2] == group_value(b) % 256,
        b.len() < 3 ==> group_value(b) % 64 == 0,
        b.len() < 2 ==> group_value(b) / 64 % 64 == 0,
{
    let x = b[0] as int;
    let y = if b.len() > 1 {
        b[1] as int
    } else {
        0
    };
    let z = if b.len() > 2 {
        b[2] as int
    } else {
        0
    };
    let v = group_value(b);
    assert(v == x * 65536 + y * 256 + z);
    assert(v / 65536 == x);
    assert(v / 256 == x * 256 + y);
    if b.len() < 3 {
        assert(v == 64 * (x * 1024 + y * 4));
        assert(v % 64 == 0);
        if b.len() < 2 {
            assert(v / 64 == 64 * (x * 16));
        }
    }
}

/// What a group's characters say of its bytes.
proof fn lemma_group(b: Seq<u8>, d0: int, d1: int, d2: int, d3: int)
    requires
        1 <= b.len() <= 3,
        0 <= d0 < 64,
        0 <= d1 < 64,
        0 <= d2 < 64,
        0 <= d3 < 64,
        group_text(b)[0] == digit64(d0),
        group_text(b)[1] == digit64(d1),
        b.len() > 1 ==> group_text(b)[2] == digit64(d2),
        b.len() == 1 ==> d2 == 0,
        b.len() > 2 ==> group_text(b)[3] == digit64(d3),
        b.len() < 3 ==> d3 == 0,
    ensures
        group_value(b) == d0 * 262144 + d1 * 4096 + d2 * 64 + d3,
{
    let v = group_value(b);
    lemma_group_bytes(b);
    lemma_parts(v);
    lemma_digits(v / 262144, d0);
    lemma_digits(v / 4096 % 64, d1);
    if b.len() > 1 {
        lemma_digits(v / 64 % 64, d2);
    }
    if b.len() > 2 {
        lemma_digits(v % 64, d3);
    }
}

/// A text of bytes starts with its first group.
proof fn lemma_first_group(b: Seq<u8>)
    requires
        b.len() > 0,
    ensures
        encoded(b).len() >= 4,
        ({
            let group = if b.len() <= 3 {
                b
            } else {
                b.take(3)
            };
            &&& encoded(b).take(4) == group_text(group)
            &&& encoded(b).skip(4) == encoded(
                if b.len() <= 3 {
                    Seq::empty()
                } else {
                    b.skip(3)
                },
            )
        }),
{
    if b.len() <= 3 {
        assert(encoded(b).take(4) =~= group_text(b));
        assert(encoded(b).skip(4) =~= Seq::<char>::empty());
    } else {
        assert(encoded(b).take(4) =~= group_text(b.take(3)));
        assert(encoded(b).skip(4) =~= encoded(b.skip(3)));
    }
}

/// Bytes whose text is given, as far as they are read: they start with `out`, and the rest of the
/// text is that of the rest of them.
pub open spec fn read_so_far(b: Seq<u8>, out: Seq<u8>, rest: Seq<char>) -> bool {
    &&& out.len() <= b.len()
    &&& b.take(out.len() as int) == out
    &&& encoded(b.skip(out.len() as int)) == rest
}

/// Reads the bytes that a text is made of, as far as it is made of any.
fn read_groups(v: &Vec<char>) -> (r: Option<Vec<u8>>)
    ensures
        match r {
            Some(out) => forall|b: Seq<u8>| #[trigger] encoded(b) == v@ ==> b == out@,
            None => forall|b: Seq<u8>| #[trigger] encoded(b) != v@,
        },
{
    let mut out: Vec<u8> = Vec::new();
    let n: usize = v.len();
    let mut i: usize = 0;
    proof {
        assert(v@.skip(0) =~= v@);
        assert forall|b: Seq<u8>| #[trigger] encoded(b) == v@ implies read_so_far(b, out@, v@) by {
            assert(b.take(0) =~= Seq::<u8>::empty());
            assert(b.skip(0) =~= b);
        }
    }
    while i < n
        invariant
            0 <= i <= n,
            n == v.len(),
            forall|b: Seq<u8>| #[trigger]
                encoded(b) == v@ ==> read_so_far(b, out@, v@.skip(i as int)),
        decreases n - i,
    {
        let ghost rest = v@.skip(i as int);
        let ghost before = out@;
        proof {
            assert forall|b: Seq<u8>| #[trigger] encoded(b) == v@ implies b.len() > before.len()
                && n - i >= 4 by {
                let c = b.skip(before.len() as int);
                if c.len() == 0 {
                    assert(encoded(c).len() == 0);
                } else {
                    lemma_first_group(c);
                }
            }
        }
        if n - i < 4 {
            return None;
        }
        let pad3 = v[i + 3] == '=';
        let pad2 = v[i + 2] == '=';
        let d0 = read_digit(v[i]);
        let d1 = read_digit(v[i + 1]);
        let d2 = if pad3 && pad2 { Some(0) } else { read_digit(v[i + 2]) };
        let d3 = if pad3 { Some(0) } else { read_digit(v[i + 3]) };
        proof {
            assert forall|b: Seq<u8>| #[trigger] encoded(b) == v@ implies ({
                let c = b.skip(before.len() as int);
                let m = if pad3 && pad2 {
                    1int
                } else if pad3 {
                    2int
                } else {
                    3int
                };
                &&& d0 is Some
                &&& d1 is Some
                &&& d2 is Some
                &&& d3 is Some
                &&& c.len() >= m
                &&& m < 3 ==> c.len() == m
                &&& group_value(c.take(m)) == d0->0 * 262144 + d1->0 * 4096 + d2->0 * 64 + d3->0
                &&& encoded(c.skip(m)) == rest.skip(4)
            }) by {
                lemma_step(b.skip(before.len() as int), rest, pad2, pad3, d0, d1, d2, d3);
            }
        }
        let (d0, d1, d2, d3) = match (d0, d1, d2, d3) {
            (Some(d0), Some(d1), Some(d2), Some(d3)) => (d0, d1, d2, d3),
            _ => {
                return None;
            },
        };
        let value: u32 = d0 * 262144 + d1 * 4096 + d2 * 64 + d3;
        out.push((value / 65536) as u8);
        if !(pad3 && pad2) {
            out.push((value / 256 % 256) as u8);
        }
        if !pad3 {
            out.push((value % 256) as u8);
        }
        i = i + 4;
        proof {
            assert(v@.skip(i as int) =~= rest.skip(4));
            assert forall|b: Seq<u8>| #[trigger] encoded(b) == v@ implies read_so_far(
                b,
                out@,
                v@.skip(i as int),
            ) by {
                let c = b.skip(before.len() as int);
                let m = out.len() - before.len();
                let g = c.take(m);
                assert(group_value(g) == value);
                lemma_group_bytes(g);
                assert(b.take(out.len() as int) =~= before + g);
                assert(out@ =~= before + g);
                assert(b.skip(out.len() as int) =~= c.skip(m));
            }
        }
    }
    proof {
        assert forall|b: Seq<u8>| #[trigger] encoded(b) == v@ implies b == out@ by {
            let c = b.skip(out.len() as int);
            assert(v@.skip(n as int).len() == 0);
            if c.len() > 0 {
                lemma_first_group(c);
            }
            assert(b =~= out@);
        }
    }
    Some(out)
}

/// What one group of a text says.
proof fn lemma_step(
    c: Seq<u8>,
    rest: Seq<char>,
    pad2: bool,
    pad3: bool,
    d0: Option<u32>,
    d1: Option<u32>,
    d2: Option<u32>,
    d3: Option<u32>,
)
    requires
        encoded(c) == rest,
        rest.len() >= 4,
        pad2 == (rest[2] == '='),
        pad3 == (rest[3] == '='),
        match d0 {
            Some(n) => n < 64 && digit64(n as int) == rest[0],
            None => forall|n: int| 0 <= n < 64 ==> #[trigger] digit64(n) != rest[0],
        },
        match d1 {
            Some(n) => n < 64 && digit64(n as int) == rest[1],
            None => forall|n: int| 0 <= n < 64 ==> #[trigger] digit64(n) != rest[1],
        },
        if pad3 && pad2 {
            d2 == Some(0u32)
        } else {
            match d2 {
                Some(n) => n < 64 && digit64(n as int) == rest[2],
                None => forall|n: int| 0 <= n < 64 ==> #[trigger] digit64(n) != rest[2],
            }
        },
        if pad3 {
            d3 == Some(0u32)
        } else {
            match d3 {
                Some(n) => n < 64 && digit64(n as int) == rest[3],
                None => forall|n: int| 0 <= n < 64 ==> #[trigger] digit64(n) != rest[3],
            }
        },
    ensures
        ({
            let m = if pad3 && pad2 {
                1int
            } else if pad3 {
                2int
            } else {
                3int
            };
            &&& d0 is Some
            &&& d1 is Some
            &&& d2 is Some
            &&& d3 is Some
            &&& c.len() >= m
            &&& m < 3 ==> c.len() == m
            &&& group_value(c.take(m)) == d0->0 * 262144 + d1->0 * 4096 + d2->0 * 64 + d3->0
            &&& encoded(c.skip(m)) == rest.skip(4)
        }),
{
    if c.len() == 0 {
        assert(encoded(c).len() == 0);
    }
    lemma_first_group(c);
    let g = if c.len() <= 3 {
        c
    } else {
        c.take(3)
    };
    let t = group_text(g);
    assert(rest.take(4) == t);
    assert(rest[0] == rest.take(4)[0]);
    assert(rest[1] == rest.take(4)[1]);
    assert(rest[2] == rest.take(4)[2]);
    assert(rest[3] == rest.take(4)[3]);
    let v = group_value(g);
    assert(0 <= v < 16777216);
    lemma_digits(v / 262144, 0);
    lemma_digits(v / 4096 % 64, 0);
    lemma_digits(v / 64 % 64, 0);
    lemma_digits(v % 64, 0);
    let m = g.len() as int;
    assert(pad3 == (m < 3));
    assert((pad3 && pad2) == (m == 1));
    lemma_group(g, d0->0 as int, d1->0 as int, d2->0 as int, d3->0 as int);
    assert(c.take(m) =~= g);
    if c.len() <= 3 {
        assert(c.skip(m) =~= Seq::<u8>::empty());
    }
}

/// Reads Base64: gives the bytes whose text this is, if it is the text of any.
pub fn decode(text: &str) -> (r: Option<Vec<u8>>)
    ensures
        match r {
            Some(b) => encoded(b@) == text@,
            None => forall|b: Seq<u8>| #[trigger] encoded(b) != text@,
        },
{
    let v = chars_of(text);
    match read_groups(&v) {
        Some(out) => if same(encode(&out).as_str(), text) {
            Some(out)
        } else {
            None
        },
        None => None,
    }
}

// ---------------------------------------------------------------------------
// Words.
// ---------------------------------------------------------------------------

/// The bytes of a word, lowest first.
pub open spec fn word_bytes(w: u32) -> Seq<u8> {
    seq![
        (w % 256) as u8,
        (w / 256 % 256) as u8,
        (w / 65536 % 256) as u8,
        (w / 16777216) as u8,
    ]
}

/// The bytes of words.
pub open spec fn words_bytes(words: Seq<u32>) -> Seq<u8>
    decreases words.len(),
{
    if words.len() == 0 {
        Seq::empty()
    } else {
        words_bytes(words.drop_last()) + word_bytes(words.last())
    }
}

/// Writes words in Base64.
pub fn encode_words(words: &Vec<u32>) -> (s: String)
    ensures
        s@ == encoded(words_bytes(words@)),
{
    let mut bytes: Vec<u8> = Vec::new();
    let mut i: usize = 0;
    assert(words@.take(0) =~= Seq::<u32>::empty());
    while i < words.len()
        invariant
            0 <= i <= words.len(),
            bytes@ == words_bytes(words@.take(i as int)),
        decreases words.len() - i,
    {
        let w: u32 = words[i];
        let ghost before = bytes@;
        bytes.push((w % 256) as u8);
        bytes.push((w / 256 % 256) as u8);
        bytes.push((w / 65536 % 256) as u8);
        bytes.push((w / 16777216) as u8);
        assert(bytes@ =~= before + word_bytes(w));
        assert(words@.take(i + 1).drop_last() =~= words@.take(i as int));
        assert(words@.take(i + 1).last() == w);
        i = i + 1;
    }
    assert(words@.take(i as int) =~= words@);
    encode(&bytes)
}

proof fn lemma_words_len(words: Seq<u32>)
    ensures
        words_bytes(words).len() == 4 * words.len(),
    decreases words.len(),
{
    if words.len() > 0 {
        lemma_words_len(words.drop_last());
    }
}

/// Words are told apart by their bytes.
proof fn lemma_words_differ(a: Seq<u32>, b: Seq<u32>)
    requires
        words_bytes(a) == words_bytes(b),
    ensures
        a == b,
    decreases a.len(),
{
    lemma_words_len(a);
    lemma_words_len(b);
    assert(a.len() == b.len());
    if a.len() > 0 {
        let (x, y) = (words_bytes(a.drop_last()), words_bytes(b.drop_last()));
        lemma_words_len(a.drop_last());
        lemma_words_len(b.drop_last());
        let n = x.len() as int;
        assert(words_bytes(a).take(n) =~= x);
        assert(words_bytes(b).take(n) =~= y);
        lemma_words_differ(a.drop_last(), b.drop_last());
        let (p, q) = (word_bytes(a.last()), word_bytes(b.last()));
        assert(words_bytes(a).skip(n) =~= p);
        assert(words_bytes(b).skip(n) =~= q);
        assert(p[0] == q[0] && p[1] == q[1] && p[2] == q[2] && p[3] == q[3]);
        lemma_word(a.last());
        lemma_word(b.last());
        assert(a =~= a.drop_last().push(a.last()));
        assert(b =~= b.drop_last().push(b.last()));
    } else {
        assert(a =~= b);
    }
}

proof fn lemma_word(w: u32)
    ensures
        w == word_bytes(w)[0] + word_bytes(w)[1] * 256 + word_bytes(w)[2] * 65536 + word_bytes(w)[3]
            * 16777216,
{
    assert(w / 16777216 < 256);
    assert(w == w % 256 + w / 256 % 256 * 256 + w / 65536 % 256 * 65536 + w / 16777216 * 16777216)
        by (bit_vector);
}

/// Reads words from Base64: gives the words whose text this is, if it is the text of any.
pub fn decode_words(text: &str) -> (r: Option<Vec<u32>>)
    ensures
        match r {
            Some(w) => encoded(words_bytes(w@)) == text@,
            None => forall|w: Seq<u32>| #[trigger] encoded(words_bytes(w)) != text@,
        },
{
    let bytes = match decode(text) {
        Some(b) => b,
        None => {
            return None;
        },
    };
    if bytes.len() % 4 != 0 {
        proof {
            assert forall|w: Seq<u32>| #[trigger] encoded(words_bytes(w)) != text@ by {
                lemma_words_len(w);
                if encoded(words_bytes(w)) == text@ {
                    bytes_read_back(words_bytes(w), bytes@);
                }
            }
        }
        return None;
    }
    let mut words: Vec<u32> = Vec::new();
    let mut i: usize = 0;
    assert(bytes@.take(0) =~= Seq::<u8>::empty());
    while i < bytes.len()
        invariant
            0 <= i <= bytes.len(),
            bytes.len() % 4 == 0,
            i % 4 == 0,
            words_bytes(words@) == bytes@.take(i as int),
        decreases bytes.len() - i,
    {
        let b0: u32 = bytes[i] as u32;
        let b1: u32 = bytes[i + 1] as u32;
        let b2: u32 = bytes[i + 2] as u32;
        let b3: u32 = bytes[i + 3] as u32;
        let w: u32 = b0 + b1 * 256 + b2 * 65536 + b3 * 16777216;
        let ghost before = words@;
        words.push(w);
        proof {
            lemma_composed(w, b0, b1, b2, b3);
            assert(words@.drop_last() =~= before);
            assert(word_bytes(w) =~= bytes@.subrange(i as int, i + 4));
            assert(bytes@.take(i + 4) =~= bytes@.take(i as int) + bytes@.subrange(i as int, i + 4));
        }
        i = i + 4;
    }
    assert(bytes@.take(i as int) =~= bytes@);
    Some(words)
}

proof fn lemma_composed(w: u32, b0: u32, b1: u32, b2: u32, b3: u32)
    requires
        b0 < 256,
        b1 < 256,
        b2 < 256,
        b3 < 256,
        w == b0 + b1 * 256 + b2 * 65536 + b3 * 16777216,
    ensures
        w % 256 == b0,
        w / 256 % 256 == b1,
        w / 65536 % 256 == b2,
        w / 16777216 == b3,
{
}

// ---------------------------------------------------------------------------
// Laws.
// ---------------------------------------------------------------------------

/// A text is that of one list of bytes only, so what is written reads back.
pub proof fn bytes_read_back(a: Seq<u8>, b: Seq<u8>)
    requires
        encoded(a) == encoded(b),
    ensures
        a == b,
    decreases a.len(),
{
    if a.len() == 0 {
        if b.len() > 0 {
            lemma_first_group(b);
        }
        assert(a =~= b);
    } else {
        if b.len() == 0 {
            lemma_first_group(a);
        } else {
            lemma_first_group(a);
            lemma_first_group(b);
            let (g, h) = (
                if a.len() <= 3 {
                    a
                } else {
                    a.take(3)
                },
                if b.len() <= 3 {
                    b
                } else {
                    b.take(3)
                },
            );
            let (x, y) = (group_text(g), group_text(h));
            assert(x == y);
            assert(x[0] == y[0] && x[1] == y[1] && x[2] == y[2] && x[3] == y[3]);
            let v = group_value(h);
            lemma_group_bytes(g);
            lemma_group_bytes(h);
            lemma_parts(v);
            lemma_digits(group_value(g) / 64 % 64, 0);
            lemma_digits(group_value(g) % 64, 0);
            lemma_digits(v / 64 % 64, 0);
            lemma_digits(v % 64, 0);
            assert(g.len() == h.len());
            lemma_group(g, v / 262144, v / 4096 % 64, v / 64 % 64, v % 64);
            assert(group_value(g) == v);
            assert(g =~= h);
            if a.len() > 3 && b.len() > 3 {
                bytes_read_back(a.skip(3), b.skip(3));
                assert(a =~= a.take(3) + a.skip(3));
                assert(b =~= b.take(3) + b.skip(3));
            } else if a.len() > 3 {
                lemma_first_group(a.skip(3));
            } else if b.len() > 3 {
                lemma_first_group(b.skip(3));
            }
        }
    }
}

/// A text is that of one list of words only, so what is written reads back.
pub proof fn words_read_back(a: Seq<u32>, b: Seq<u32>)
    requires
        encoded(words_bytes(a)) == encoded(words_bytes(b)),
    ensures
        a == b,
{
    bytes_read_back(words_bytes(a), words_bytes(b));
    lemma_words_differ(a, b);
}

} // verus!
