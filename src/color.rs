use vstd::prelude::*;
use crate::error::Error;
use crate::text::{lower_of, lowercase};

verus! {

broadcast use vstd::string::is_ascii_spec_bytes;

/// A hex digit, in either case.
pub open spec fn is_hex_char(c: char) -> bool {
    ('0' <= c <= '9') || ('a' <= c <= 'f') || ('A' <= c <= 'F')
}

/// Exactly six hex digits, no `#`.
pub open spec fn is_hex_color(s: Seq<char>) -> bool {
    &&& s.len() == 6
    &&& forall|i: int| 0 <= i < 6 ==> is_hex_char(#[trigger] s[i])
}

/// Six hex digits, all lower case.
pub open spec fn is_lower_hex_color(s: Seq<char>) -> bool {
    &&& s.len() == 6
    &&& forall|i: int| 0 <= i < 6 ==> ('0' <= #[trigger] s[i] <= '9') || ('a' <= s[i] <= 'f')
}

fn is_hex_byte(b: u8) -> (r: bool)
    ensures
        r == is_hex_char(b as char),
{
    (48 <= b && b <= 57) || (97 <= b && b <= 102) || (65 <= b && b <= 70)
}

/// Accepts a color given as exactly six hex digits, in either case.
pub fn validate_color(color: &str) -> (r: Result<(), Error>)
    ensures
        r is Ok <==> is_hex_color(color@),
        r matches Err(e) ==> (e matches Error::InvalidColor(m) && m@ == color@),
{
    if !color.is_ascii() {
        return Err(Error::InvalidColor(color.to_owned()));
    }
    let b = color.as_bytes();
    proof {
        vstd::utf8::is_ascii_chars_encode_utf8(color@);
    }
    if b.len() != 6 {
        return Err(Error::InvalidColor(color.to_owned()));
    }
    let mut i: usize = 0;
    while i < 6
        invariant
            b@.len() == 6,
            color@.len() == 6,
            vstd::string::is_ascii(color),
            forall|j: int| 0 <= j < 6 ==> #[trigger] b@[j] == color@[j] as u8,
            0 <= i <= 6,
            forall|j: int| 0 <= j < i ==> is_hex_char(#[trigger] color@[j]),
        decreases 6 - i,
    {
        if !is_hex_byte(b[i]) {
            assert(color@[i as int] as u8 == b@[i as int]);
            return Err(Error::InvalidColor(color.to_owned()));
        }
        i = i + 1;
    }
    Ok(())
}

/// The hash of a name's bytes: each byte times its position counted from
/// one, summed, all modulo 2^32.
pub open spec fn name_hash(b: Seq<u8>) -> nat
    decreases b.len(),
{
    if b.len() == 0 {
        0
    } else {
        ((name_hash(b.drop_last()) + b.last() * b.len()) % 0x1_0000_0000) as nat
    }
}

/// How far the hue stands into its sixty-degree sector, out of sixty: the
/// share of the middle channel.
pub open spec fn hue_rise(h: nat) -> nat {
    let p = h % 120;
    if p <= 60 {
        p
    } else {
        (120 - p) as nat
    }
}

/// The red, green and blue bytes of a hue (degrees, below 360) at saturation
/// 0.65 and lightness 0.45: the strongest channel is 189, the weakest 40,
/// and the middle one rises linearly between 40 and 189 across the sector
/// (rounded down from (1989 k + 32130) / 800, for k the rise out of 60).
pub open spec fn rgb_of_hue(h: nat) -> (nat, nat, nat) {
    let hi: nat = 189;
    let lo: nat = 40;
    let mid: nat = (1989 * hue_rise(h) + 32130) / 800;
    if h < 60 {
        (hi, mid, lo)
    } else if h < 120 {
        (mid, hi, lo)
    } else if h < 180 {
        (lo, hi, mid)
    } else if h < 240 {
        (lo, mid, hi)
    } else if h < 300 {
        (mid, lo, hi)
    } else {
        (hi, lo, mid)
    }
}

pub open spec fn hex_digit_char(d: nat) -> char {
    if d < 10 {
        ((d + 48) as u8) as char
    } else {
        ((d + 87) as u8) as char
    }
}

/// Two lower-case hex digits of a byte.
pub open spec fn hex_pair(n: nat) -> Seq<char> {
    seq![hex_digit_char(n / 16), hex_digit_char(n % 16)]
}

/// The six-digit lower-case hex text of three bytes.
pub open spec fn hex_rgb(c: (nat, nat, nat)) -> Seq<char> {
    hex_pair(c.0) + hex_pair(c.1) + hex_pair(c.2)
}

/// The color of an already lower-cased name: a hue picked by the hash of
/// its UTF-8 bytes.
pub open spec fn color_from_lowered(lowered: Seq<char>) -> Seq<char> {
    hex_rgb(rgb_of_hue(name_hash(vstd::utf8::encode_utf8(lowered)) % 360))
}

/// The color given to a label that names none: that of its lower-cased name.
pub open spec fn label_color(name: Seq<char>) -> Seq<char> {
    color_from_lowered(lower_of(name))
}

/// Names that lower-case alike get the same color.
pub proof fn lemma_color_ignores_case(a: Seq<char>, b: Seq<char>)
    requires
        lower_of(a) == lower_of(b),
    ensures
        label_color(a) == label_color(b),
        is_lower_hex_color(label_color(a)),
{
    lemma_color_is_lower_hex(lower_of(a));
}

/// Every color made from a name is six lower-case hex digits.
pub proof fn lemma_color_is_lower_hex(lowered: Seq<char>)
    ensures
        is_lower_hex_color(color_from_lowered(lowered)),
{
    lemma_rgb_bytes(name_hash(vstd::utf8::encode_utf8(lowered)) % 360);
    lemma_hex_rgb_lower(rgb_of_hue(name_hash(vstd::utf8::encode_utf8(lowered)) % 360));
}

proof fn lemma_rgb_bytes(h: nat)
    ensures
        rgb_of_hue(h).0 < 256,
        rgb_of_hue(h).1 < 256,
        rgb_of_hue(h).2 < 256,
{
    assert(hue_rise(h) <= 60);
    assert((1989 * hue_rise(h) + 32130) / 800 <= 190) by (nonlinear_arith)
        requires
            hue_rise(h) <= 60,
    ;
}

proof fn lemma_hex_rgb_lower(c: (nat, nat, nat))
    requires
        c.0 < 256,
        c.1 < 256,
        c.2 < 256,
    ensures
        is_lower_hex_color(hex_rgb(c)),
{
    let s = hex_rgb(c);
    assert(s.len() == 6);
    assert forall|i: int| 0 <= i < 6 implies ('0' <= #[trigger] s[i] <= '9') || ('a' <= s[i]
        <= 'f') by {
        assert(s[0] == hex_digit_char(c.0 / 16));
        assert(s[1] == hex_digit_char(c.0 % 16));
        assert(s[2] == hex_digit_char(c.1 / 16));
        assert(s[3] == hex_digit_char(c.1 % 16));
        assert(s[4] == hex_digit_char(c.2 / 16));
        assert(s[5] == hex_digit_char(c.2 % 16));
    }
}

fn hex_digit_str(d: u8) -> (r: &'static str)
    requires
        d < 16,
    ensures
        r@ == seq![hex_digit_char(d as nat)],
{
    proof {
        reveal_strlit("0");
        reveal_strlit("1");
        reveal_strlit("2");
        reveal_strlit("3");
        reveal_strlit("4");
        reveal_strlit("5");
        reveal_strlit("6");
        reveal_strlit("7");
        reveal_strlit("8");
        reveal_strlit("9");
        reveal_strlit("a");
        reveal_strlit("b");
        reveal_strlit("c");
        reveal_strlit("d");
        reveal_strlit("e");
        reveal_strlit("f");
    }
    match d {
        0 => "0",
        1 => "1",
        2 => "2",
        3 => "3",
        4 => "4",
        5 => "5",
        6 => "6",
        7 => "7",
        8 => "8",
        9 => "9",
        10 => "a",
        11 => "b",
        12 => "c",
        13 => "d",
        14 => "e",
        _ => "f",
    }
}

fn push_hex_pair(s: &mut String, n: u8)
    ensures
        final(s)@ == old(s)@ + hex_pair(n as nat),
{
    s.append(hex_digit_str(n / 16));
    s.append(hex_digit_str(n % 16));
    assert(final(s)@ =~= old(s)@ + hex_pair(n as nat));
}

/// Red, green and blue of a hue in degrees (below 360), at the fixed
/// saturation and lightness of generated colors.
fn hsl_to_rgb(h: u32) -> (r: (u8, u8, u8))
    requires
        h < 360,
    ensures
        (r.0 as nat, r.1 as nat, r.2 as nat) == rgb_of_hue(h as nat),
{
    let p: u32 = h % 120;
    let rise: u32 = if p <= 60 {
        p
    } else {
        120 - p
    };
    proof {
        lemma_rgb_bytes(h as nat);
    }
    let mid: u8 = ((1989 * rise + 32130) / 800) as u8;
    if h < 60 {
        (189, mid, 40)
    } else if h < 120 {
        (mid, 189, 40)
    } else if h < 180 {
        (40, 189, mid)
    } else if h < 240 {
        (40, mid, 189)
    } else if h < 300 {
        (mid, 40, 189)
    } else {
        (189, 40, mid)
    }
}

/// The hash of a name's bytes (see `name_hash`).
fn hash_bytes(b: &[u8]) -> (r: u32)
    ensures
        r as nat == name_hash(b@),
{
    let mut acc: u32 = 0;
    let mut weight: u32 = 1;
    let mut i: usize = 0;
    while i < b.len()
        invariant
            0 <= i <= b@.len(),
            acc as nat == name_hash(b@.subrange(0, i as int)),
            weight as nat == (i + 1) % 0x1_0000_0000,
        decreases b@.len() - i,
    {
        let prod: u32 = (b[i] as u32).wrapping_mul(weight);
        let next: u32 = acc.wrapping_add(prod);
        proof {
            let pre = b@.subrange(0, i as int);
            let post = b@.subrange(0, i + 1);
            assert(post.drop_last() =~= pre);
            assert(post.last() == b@[i as int]);
            lemma_hash_step(acc as nat, b@[i as int] as nat, i as nat, weight as nat);
        }
        acc = next;
        weight = weight.wrapping_add(1);
        i = i + 1;
    }
    assert(b@.subrange(0, b@.len() as int) =~= b@);
    acc
}

proof fn lemma_hash_step(acc: nat, byte: nat, i: nat, w: nat)
    requires
        acc < 0x1_0000_0000,
        byte < 256,
        w == (i + 1) % 0x1_0000_0000,
    ensures
        (acc + (byte * w) % 0x1_0000_0000) % 0x1_0000_0000 == (acc + byte * (i + 1))
            % 0x1_0000_0000,
{
    let m: int = 0x1_0000_0000;
    vstd::arithmetic::div_mod::lemma_mul_mod_noop_right(byte as int, (i + 1) as int, m);
    vstd::arithmetic::div_mod::lemma_add_mod_noop(acc as int, (byte * w) as int, m);
    vstd::arithmetic::div_mod::lemma_add_mod_noop(acc as int, (byte * (i + 1)) as int, m);
}

/// A color for a label that names none, picked from its lower-cased name:
/// the same name, in any case, always gets the same color.
pub fn generate_color(name: &str) -> (r: String)
    ensures
        r@ == label_color(name@),
        is_lower_hex_color(r@),
{
    let lower = lowercase(name);
    color_of_lowered(lower.as_str())
}

/// The color of a name that is lower-cased already (see `color_from_lowered`).
pub fn color_of_lowered(lowered: &str) -> (r: String)
    ensures
        r@ == color_from_lowered(lowered@),
        is_lower_hex_color(r@),
{
    let hash = hash_bytes(lowered.as_bytes());
    let (red, green, blue) = hsl_to_rgb(hash % 360);
    let mut s = String::new();
    push_hex_pair(&mut s, red);
    push_hex_pair(&mut s, green);
    push_hex_pair(&mut s, blue);
    proof {
        assert(s@ =~= hex_rgb(rgb_of_hue(hash as nat % 360)));
        lemma_color_is_lower_hex(lowered@);
    }
    s
}

/// The three bytes of a six-digit hex color, if it is one.
pub open spec fn hex_value(c: char) -> nat {
    if '0' <= c <= '9' {
        (c as nat - 48) as nat
    } else if 'a' <= c <= 'f' {
        (c as nat - 87) as nat
    } else {
        (c as nat - 55) as nat
    }
}

pub open spec fn rgb_of_hex(s: Seq<char>) -> (u8, u8, u8) {
    (
        (hex_value(s[0]) * 16 + hex_value(s[1])) as u8,
        (hex_value(s[2]) * 16 + hex_value(s[3])) as u8,
        (hex_value(s[4]) * 16 + hex_value(s[5])) as u8,
    )
}

fn hex_byte_value(b: u8) -> (r: u8)
    requires
        is_hex_char(b as char),
    ensures
        r as nat == hex_value(b as char),
        r < 16,
{
    if b <= 57 {
        b - 48
    } else if b >= 97 {
        b - 87
    } else {
        b - 55
    }
}

/// Reads the red, green and blue bytes of a color of six hex digits; none for
/// any other text.
pub fn parse_hex_rgb(color: &str) -> (r: Option<(u8, u8, u8)>)
    ensures
        is_hex_color(color@) ==> r == Some(rgb_of_hex(color@)),
        !is_hex_color(color@) ==> r is None,
{
    if validate_color(color).is_err() {
        return None;
    }
    let b = color.as_bytes();
    proof {
        vstd::utf8::is_ascii_chars_encode_utf8(color@);
        assert forall|j: int| 0 <= j < 6 implies #[trigger] b@[j] == color@[j] as u8
            && is_hex_char(b@[j] as char) by {
            assert(is_hex_char(color@[j]));
        }
    }
    let r0 = hex_byte_value(b[0]) * 16 + hex_byte_value(b[1]);
    let r1 = hex_byte_value(b[2]) * 16 + hex_byte_value(b[3]);
    let r2 = hex_byte_value(b[4]) * 16 + hex_byte_value(b[5]);
    Some((r0, r1, r2))
}

} // verus!
