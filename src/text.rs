use vstd::prelude::*;

verus! {

/// What `str::to_lowercase` makes of a text (full Unicode lowercasing).
pub uninterp spec fn lower_of(s: Seq<char>) -> Seq<char>;

/// Relies on `str::to_lowercase`: the result depends on the characters alone.
#[verifier::external_body]
pub(crate) fn lowercase(s: &str) -> (r: String)
    ensures
        r@ == lower_of(s@),
{
    s.to_lowercase()
}

/// The text of an optional string slice.
pub open spec fn text_of(t: Option<&str>) -> Option<Seq<char>> {
    match t {
        Some(s) => Some(s@),
        None => None,
    }
}

/// The text of an optional string.
pub open spec fn string_view(t: Option<String>) -> Option<Seq<char>> {
    match t {
        Some(s) => Some(s@),
        None => None,
    }
}

/// An ASCII upper-case letter mapped to lower case; every other byte kept.
pub open spec fn fold_byte(b: u8) -> u8 {
    if 65 <= b <= 90 {
        (b + 32) as u8
    } else {
        b
    }
}

/// Two byte strings equal once ASCII letters are folded to lower case: how
/// names are compared (non-ASCII characters compare exactly).
pub open spec fn same_folded(a: Seq<u8>, b: Seq<u8>) -> bool {
    &&& a.len() == b.len()
    &&& forall|i: int| 0 <= i < a.len() ==> fold_byte(#[trigger] a[i]) == fold_byte(b[i])
}

/// Two names that name the same thing: equal but for ASCII case.
pub open spec fn same_name(a: Seq<char>, b: Seq<char>) -> bool {
    same_folded(vstd::utf8::encode_utf8(a), vstd::utf8::encode_utf8(b))
}

/// Names equal but for case are so in either order, and in chains.
pub proof fn lemma_same_name_trans(a: Seq<char>, b: Seq<char>, c: Seq<char>)
    ensures
        same_name(a, b) ==> same_name(b, a),
        same_name(a, b) && same_name(b, c) ==> same_name(a, c),
{
    let x = vstd::utf8::encode_utf8(a);
    let y = vstd::utf8::encode_utf8(b);
    let z = vstd::utf8::encode_utf8(c);
    if same_name(a, b) && same_name(b, c) {
        assert forall|i: int| 0 <= i < x.len() implies fold_byte(#[trigger] x[i]) == fold_byte(z[i]) by {
            assert(fold_byte(x[i]) == fold_byte(y[i]));
            assert(fold_byte(y[i]) == fold_byte(z[i]));
        }
    }
    if same_name(a, b) {
        assert forall|i: int| 0 <= i < y.len() implies fold_byte(#[trigger] y[i]) == fold_byte(x[i]) by {
            assert(fold_byte(x[i]) == fold_byte(y[i]));
        }
    }
}

pub(crate) fn fold(b: u8) -> (r: u8)
    ensures
        r == fold_byte(b),
{
    if 65 <= b && b <= 90 {
        b + 32
    } else {
        b
    }
}

/// A byte string with ASCII letters folded to lower case.
pub open spec fn folded(a: Seq<u8>) -> Seq<u8> {
    a.map_values(|b: u8| fold_byte(b))
}

/// `a` sorts strictly before `b`, byte by byte, a proper prefix first.
pub open spec fn lex_less(a: Seq<u8>, b: Seq<u8>) -> bool
    decreases a.len(),
{
    if b.len() == 0 {
        false
    } else if a.len() == 0 {
        true
    } else if a[0] != b[0] {
        a[0] < b[0]
    } else {
        lex_less(a.drop_first(), b.drop_first())
    }
}

/// `a` sorts before `b` as names do: ASCII case aside, byte by byte.
pub open spec fn name_less(a: Seq<char>, b: Seq<char>) -> bool {
    lex_less(folded(vstd::utf8::encode_utf8(a)), folded(vstd::utf8::encode_utf8(b)))
}

/// The order of byte strings is a strict total order.
pub proof fn lemma_lex_order(a: Seq<u8>, b: Seq<u8>, c: Seq<u8>)
    ensures
        lex_less(a, b) && lex_less(b, c) ==> lex_less(a, c),
        !(lex_less(a, b) && lex_less(b, a)),
        a != b ==> lex_less(a, b) || lex_less(b, a),
    decreases a.len(),
{
    if a.len() > 0 && b.len() > 0 {
        let c1 = if c.len() > 0 { c.drop_first() } else { c };
        lemma_lex_order(a.drop_first(), b.drop_first(), c1);
    }
    if a.len() > 0 && b.len() > 0 && a != b && a[0] == b[0] {
        assert(a =~= seq![a[0]] + a.drop_first());
        assert(b =~= seq![b[0]] + b.drop_first());
    }
    if a.len() == 0 && b.len() == 0 {
        assert(a =~= b);
    }
}

/// With equal prefixes up to `i`, the order is decided by what follows.
pub proof fn lemma_lex_skip(a: Seq<u8>, b: Seq<u8>, i: int)
    requires
        0 <= i <= a.len(),
        i <= b.len(),
        a.subrange(0, i) == b.subrange(0, i),
    ensures
        lex_less(a, b) == lex_less(a.subrange(i, a.len() as int), b.subrange(i, b.len() as int)),
    decreases i,
{
    if i > 0 {
        assert(a[0] == a.subrange(0, i)[0]);
        assert(b[0] == b.subrange(0, i)[0]);
        assert(a.drop_first().subrange(0, i - 1) =~= a.subrange(0, i).drop_first());
        assert(b.drop_first().subrange(0, i - 1) =~= b.subrange(0, i).drop_first());
        lemma_lex_skip(a.drop_first(), b.drop_first(), i - 1);
        assert(a.drop_first().subrange(i - 1, a.len() - 1) =~= a.subrange(i, a.len() as int));
        assert(b.drop_first().subrange(i - 1, b.len() - 1) =~= b.subrange(i, b.len() as int));
    } else {
        assert(a.subrange(0, a.len() as int) =~= a);
        assert(b.subrange(0, b.len() as int) =~= b);
    }
}

/// Names that are not equal but for case differ once folded.
pub proof fn lemma_distinct_names_fold_apart(a: Seq<char>, b: Seq<char>)
    ensures
        !same_name(a, b) ==> folded(vstd::utf8::encode_utf8(a)) != folded(vstd::utf8::encode_utf8(b)),
{
    let x = vstd::utf8::encode_utf8(a);
    let y = vstd::utf8::encode_utf8(b);
    if folded(x) == folded(y) {
        assert(folded(x).len() == x.len());
        assert(folded(y).len() == y.len());
        assert forall|i: int| 0 <= i < x.len() implies fold_byte(#[trigger] x[i]) == fold_byte(y[i]) by {
            assert(folded(x)[i] == fold_byte(x[i]));
            assert(folded(y)[i] == fold_byte(y[i]));
        }
    }
}

/// Whether name `a` sorts before name `b` (see `name_less`).
pub fn name_before(a: &str, b: &str) -> (r: bool)
    ensures
        r == name_less(a@, b@),
{
    let x = a.as_bytes();
    let y = b.as_bytes();
    let ghost fx = folded(x@);
    let ghost fy = folded(y@);
    let mut i: usize = 0;
    while i < x.len() && i < y.len()
        invariant
            x@ == vstd::utf8::encode_utf8(a@),
            y@ == vstd::utf8::encode_utf8(b@),
            fx == folded(x@),
            fy == folded(y@),
            0 <= i <= x@.len(),
            i <= y@.len(),
            fx.subrange(0, i as int) == fy.subrange(0, i as int),
        decreases x@.len() - i,
    {
        let p = fold(x[i]);
        let q = fold(y[i]);
        if p != q {
            proof {
                lemma_lex_skip(fx, fy, i as int);
                let rx = fx.subrange(i as int, fx.len() as int);
                let ry = fy.subrange(i as int, fy.len() as int);
                assert(rx[0] == p);
                assert(ry[0] == q);
            }
            return p < q;
        }
        proof {
            assert(fx.subrange(0, i + 1) =~= fx.subrange(0, i as int).push(p));
            assert(fy.subrange(0, i + 1) =~= fy.subrange(0, i as int).push(q));
        }
        i = i + 1;
    }
    proof {
        lemma_lex_skip(fx, fy, i as int);
        let rx = fx.subrange(i as int, fx.len() as int);
        let ry = fy.subrange(i as int, fy.len() as int);
        assert(rx.len() == 0 || ry.len() == 0);
    }
    i < y.len()
}

/// Compares two texts character for character.
pub fn same_text(a: &str, b: &str) -> (r: bool)
    ensures
        r == (a@ == b@),
{
    let x = a.as_bytes();
    let y = b.as_bytes();
    proof {
        vstd::utf8::encode_utf8_decode_utf8(a@);
        vstd::utf8::encode_utf8_decode_utf8(b@);
    }
    if x.len() != y.len() {
        return false;
    }
    let mut i: usize = 0;
    while i < x.len()
        invariant
            x@ == vstd::utf8::encode_utf8(a@),
            y@ == vstd::utf8::encode_utf8(b@),
            x@.len() == y@.len(),
            0 <= i <= x@.len(),
            forall|j: int| 0 <= j < i ==> #[trigger] x@[j] == y@[j],
        decreases x@.len() - i,
    {
        if x[i] != y[i] {
            return false;
        }
        i = i + 1;
    }
    assert(x@ =~= y@);
    true
}

/// Compares two names without regard to ASCII case.
pub fn names_equal(a: &str, b: &str) -> (r: bool)
    ensures
        r == same_name(a@, b@),
{
    let x = a.as_bytes();
    let y = b.as_bytes();
    if x.len() != y.len() {
        return false;
    }
    let mut i: usize = 0;
    while i < x.len()
        invariant
            x@ == vstd::utf8::encode_utf8(a@),
            y@ == vstd::utf8::encode_utf8(b@),
            x@.len() == y@.len(),
            0 <= i <= x@.len(),
            forall|j: int| 0 <= j < i ==> fold_byte(#[trigger] x@[j]) == fold_byte(y@[j]),
        decreases x@.len() - i,
    {
        if fold(x[i]) != fold(y[i]) {
            return false;
        }
        i = i + 1;
    }
    true
}

/// The decimal digits of a natural number, most significant first.
pub open spec fn digits_of(n: nat) -> Seq<char>
    decreases n,
{
    if n < 10 {
        seq![digit_char(n)]
    } else {
        digits_of(n / 10).push(digit_char(n % 10))
    }
}

pub open spec fn digit_char(d: nat) -> char {
    if d < 10 {
        ((d + 48) as u8) as char
    } else {
        '?'
    }
}

/// The decimal text of an integer, with a leading `-` when it is negative.
pub open spec fn decimal_text(n: int) -> Seq<char> {
    if n < 0 {
        seq!['-'] + digits_of((-n) as nat)
    } else {
        digits_of(n as nat)
    }
}

fn digit_str(d: u64) -> (r: &'static str)
    requires
        d < 10,
    ensures
        r@ == seq![digit_char(d as nat)],
{
    proof {
        reveal_strlit("0");
        reveal_strlit("1");
        reveal_strlit("2");
        reveal_strlit("3");
        reveal_strlit("4");
        reveal_strlit("5");
        reveal_strlit("6");
        reveal_strlit("7");
        reveal_strlit("8");
        reveal_strlit("9");
    }
    match d {
        0 => "0",
        1 => "1",
        2 => "2",
        3 => "3",
        4 => "4",
        5 => "5",
        6 => "6",
        7 => "7",
        8 => "8",
        _ => "9",
    }
}

fn natural_text(n: u64) -> (r: String)
    ensures
        r@ == digits_of(n as nat),
    decreases n,
{
    if n < 10 {
        let mut s = String::new();
        s.append(digit_str(n));
        proof {
            assert(s@ =~= digits_of(n as nat));
        }
        s
    } else {
        let mut s = natural_text(n / 10);
        s.append(digit_str(n % 10));
        proof {
            assert(s@ =~= digits_of(n as nat));
        }
        s
    }
}

/// The decimal text of an integer, as `{}` formats it.
pub fn decimal(n: i64) -> (r: String)
    ensures
        r@ == decimal_text(n as int),
{
    if n < 0 {
        let m: u64 = if n == i64::MIN {
            9223372036854775808u64
        } else {
            (-n) as u64
        };
        let mut s = String::new();
        proof {
            reveal_strlit("-");
        }
        s.append("-");
        let t = natural_text(m);
        s.append(t.as_str());
        proof {
            assert(s@ =~= decimal_text(n as int));
        }
        s
    } else {
        natural_text(n as u64)
    }
}

} // verus!
