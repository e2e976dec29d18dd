//! Text primitives: the order of names, decimal rendering, padding and
//! concatenation, all stated over sequences of characters.

use vstd::prelude::*;

verus! {

/// `String::push` appends one character.
pub assume_specification[ String::push ](s: &mut String, c: char)
    ensures
        final(s)@ == old(s)@.push(c),
;

// ---------------------------------------------------------------------
// Order of names
// ---------------------------------------------------------------------

/// `a` stands before `b` in the order of strings: the first character in
/// which they differ decides by its code point, and a proper prefix stands
/// before the longer string.
pub open spec fn name_lt(a: Seq<char>, b: Seq<char>) -> bool
    decreases a.len(),
{
    if b.len() == 0 {
        false
    } else if a.len() == 0 {
        true
    } else if a[0] == b[0] {
        name_lt(a.drop_first(), b.drop_first())
    } else {
        (a[0] as int) < (b[0] as int)
    }
}

/// No name stands before itself.
pub proof fn name_lt_irreflexive(a: Seq<char>)
    ensures
        !name_lt(a, a),
    decreases a.len(),
{
    if a.len() > 0 {
        name_lt_irreflexive(a.drop_first());
    }
}

/// The order of names is transitive.
pub proof fn name_lt_transitive(a: Seq<char>, b: Seq<char>, c: Seq<char>)
    requires
        name_lt(a, b),
        name_lt(b, c),
    ensures
        name_lt(a, c),
    decreases a.len(),
{
    if a.len() > 0 && b.len() > 0 && c.len() > 0 && a[0] == b[0] && b[0] == c[0] {
        name_lt_transitive(a.drop_first(), b.drop_first(), c.drop_first());
    }
}

/// Of two names one stands before the other, or they are the same.
pub proof fn name_lt_total(a: Seq<char>, b: Seq<char>)
    ensures
        name_lt(a, b) || name_lt(b, a) || a == b,
    decreases a.len(),
{
    if a.len() > 0 && b.len() > 0 {
        if a[0] == b[0] {
            name_lt_total(a.drop_first(), b.drop_first());
            assert(a =~= seq![a[0]] + a.drop_first());
            assert(b =~= seq![b[0]] + b.drop_first());
        }
    } else if a.len() == 0 && b.len() == 0 {
        assert(a =~= b);
    }
}

/// Of two names at most one stands before the other.
pub proof fn name_lt_asymmetric(a: Seq<char>, b: Seq<char>)
    requires
        name_lt(a, b),
    ensures
        !name_lt(b, a),
        a != b,
{
    if name_lt(b, a) {
        name_lt_transitive(a, b, a);
    }
    name_lt_irreflexive(a);
}

/// The characters of `s`, in order.
pub fn chars_of(s: &str) -> (v: Vec<char>)
    ensures
        v@ == s@,
{
    let mut v: Vec<char> = Vec::new();
    for c in it: s.chars()
        invariant
            it.seq() == s@,
            v@ == it.seq().take(it.index() as int),
    {
        v.push(c);
    }
    assert(v@ =~= s@);
    v
}

/// Whether `a` stands before `b`.
pub fn name_less(a: &str, b: &str) -> (r: bool)
    ensures
        r == name_lt(a@, b@),
{
    let x = chars_of(a);
    let y = chars_of(b);
    let mut i: usize = 0;
    proof {
        assert(a@.skip(0) =~= a@);
        assert(b@.skip(0) =~= b@);
    }
    while i < x.len() && i < y.len() && x[i] == y[i]
        invariant
            x@ == a@,
            y@ == b@,
            i <= x.len(),
            i <= y.len(),
            name_lt(a@, b@) == name_lt(a@.skip(i as int), b@.skip(i as int)),
        decreases x.len() - i,
    {
        proof {
            let p = a@.skip(i as int);
            let q = b@.skip(i as int);
            assert(p.drop_first() =~= a@.skip(i + 1));
            assert(q.drop_first() =~= b@.skip(i + 1));
        }
        i = i + 1;
    }
    if i >= y.len() {
        false
    } else if i >= x.len() {
        true
    } else {
        let p = x[i];
        let q = y[i];
        assert(a@.skip(i as int)[0] == p);
        assert(b@.skip(i as int)[0] == q);
        p < q
    }
}

/// Whether the two strings are equal.
pub fn same(a: &str, b: &str) -> (r: bool)
    ensures
        r == (a@ == b@),
{
    let x = chars_of(a);
    let y = chars_of(b);
    if x.len() != y.len() {
        return false;
    }
    for i in 0..x.len()
        invariant
            x@ == a@,
            y@ == b@,
            x.len() == y.len(),
            x@.take(i as int) == y@.take(i as int),
    {
        if x[i] != y[i] {
            return false;
        }
        assert(x@.take(i + 1) =~= x@.take(i as int).push(x@[i as int]));
        assert(y@.take(i + 1) =~= y@.take(i as int).push(y@[i as int]));
    }
    assert(x@ =~= x@.take(x@.len() as int));
    assert(y@ =~= y@.take(y@.len() as int));
    true
}

// ---------------------------------------------------------------------
// Decimal rendering
// ---------------------------------------------------------------------

/// The character of a decimal digit.
pub open spec fn digit(d: nat) -> char {
    if d == 0 { '0' } else if d == 1 { '1' } else if d == 2 { '2' } else if d == 3 { '3' }
    else if d == 4 { '4' } else if d == 5 { '5' } else if d == 6 { '6' } else if d == 7 { '7' }
    else if d == 8 { '8' } else { '9' }
}

/// Decimal digits of a natural number, without leading zeros.
pub open spec fn decimal(n: nat) -> Seq<char>
    decreases n,
{
    if n < 10 {
        seq![digit(n)]
    } else {
        decimal(n / 10).push(digit(n % 10))
    }
}

/// Decimal rendering of an integer, with a minus sign where it is negative.
pub open spec fn decimal_int(n: int) -> Seq<char> {
    if n < 0 {
        seq!['-'] + decimal((-n) as nat)
    } else {
        decimal(n as nat)
    }
}

fn digit_of(d: u64) -> (c: char)
    requires
        d < 10,
    ensures
        c == digit(d as nat),
{
    match d {
        0 => '0',
        1 => '1',
        2 => '2',
        3 => '3',
        4 => '4',
        5 => '5',
        6 => '6',
        7 => '7',
        8 => '8',
        _ => '9',
    }
}

/// Decimal text of an unsigned number.
pub fn decimal_u64(n: u64) -> (s: String)
    ensures
        s@ == decimal(n as nat),
    decreases n,
{
    if n < 10 {
        let mut s = String::new();
        s.push(digit_of(n));
        assert(s@ =~= seq![digit(n as nat)]);
        s
    } else {
        let mut s = decimal_u64(n / 10);
        s.push(digit_of(n % 10));
        s
    }
}

/// Decimal text of a signed number.
pub fn decimal_i64(n: i64) -> (s: String)
    ensures
        s@ == decimal_int(n as int),
{
    if n < 0 {
        let m: u64 = if n == i64::MIN { 9223372036854775808u64 } else { (-n) as u64 };
        let mut s = String::new();
        s.push('-');
        let d = decimal_u64(m);
        s.append(d.as_str());
        assert(s@ =~= seq!['-'] + decimal((-(n as int)) as nat));
        s
    } else {
        decimal_u64(n as u64)
    }
}

// ---------------------------------------------------------------------
// Quoted text
// ---------------------------------------------------------------------

/// The text in double quotes with special characters escaped, as the standard
/// library shows a string for debugging.
pub uninterp spec fn debug_text(s: Seq<char>) -> Seq<char>;

/// The text as `format!` shows a string with `{:?}`: in quotes and escaped.
#[verifier::external_body]
pub(crate) fn quoted(s: &str) -> (r: String)
    ensures
        r@ == debug_text(s@),
{
    format!("{:?}", s)
}

/// The quoted texts, separated by commas.
pub open spec fn quoted_list(names: Seq<Seq<char>>) -> Seq<char>
    decreases names.len(),
{
    if names.len() == 0 {
        Seq::empty()
    } else if names.len() == 1 {
        debug_text(names[0])
    } else {
        quoted_list(names.drop_last()) + ", "@ + debug_text(names.last())
    }
}

/// The list of names in square brackets, each one quoted.
pub open spec fn shown_list(names: Seq<Seq<char>>) -> Seq<char> {
    "["@ + quoted_list(names) + "]"@
}

/// The list of names in square brackets, each one quoted.
pub fn show_list(names: &[String]) -> (r: String)
    ensures
        r@ == shown_list(Seq::new(names@.len(), |i: int| names@[i]@)),
{
    let ghost t = Seq::new(names@.len(), |i: int| names@[i]@);
    let mut s = "[".to_owned();
    assert(s@ =~= "["@ + quoted_list(t.take(0)));
    for i in 0..names.len()
        invariant
            t == Seq::new(names@.len(), |k: int| names@[k]@),
            s@ == "["@ + quoted_list(t.take(i as int)),
    {
        if i > 0 {
            s.append(", ");
        }
        s.append(quoted(names[i].as_str()).as_str());
        proof {
            let next = t.take(i + 1);
            assert(next.drop_last() =~= t.take(i as int));
            assert(next.last() == names@[i as int]@);
            assert(s@ =~= "["@ + quoted_list(next));
        }
    }
    assert(t.take(t.len() as int) =~= t);
    s.append("]");
    assert(s@ =~= shown_list(t));
    s
}

// ---------------------------------------------------------------------
// Decimal digits tell numbers apart
// ---------------------------------------------------------------------

/// The character is a decimal digit.
pub open spec fn is_digit(c: char) -> bool {
    '0' <= c && c <= '9'
}

/// A decimal text has at least one character, and each is a digit.
pub proof fn decimal_digits(n: nat)
    ensures
        decimal(n).len() > 0,
        forall|i: int| 0 <= i < decimal(n).len() ==> is_digit(#[trigger] decimal(n)[i]),
    decreases n,
{
    if n >= 10 {
        decimal_digits(n / 10);
        let d = decimal(n / 10);
        assert forall|i: int| 0 <= i < decimal(n).len() implies is_digit(#[trigger] decimal(n)[i]) by {
            if i < d.len() {
                assert(decimal(n)[i] == d[i]);
            }
        }
    }
}

proof fn digit_tells(a: nat, b: nat)
    requires
        a < 10,
        b < 10,
        digit(a) == digit(b),
    ensures
        a == b,
{
}

/// Different numbers have different decimal texts.
pub proof fn decimal_tells_numbers_apart(a: nat, b: nat)
    requires
        decimal(a) == decimal(b),
    ensures
        a == b,
    decreases a,
{
    let s = decimal(a);
    if a < 10 && b < 10 {
        assert(s[0] == digit(a) && s[0] == digit(b));
        digit_tells(a, b);
    } else if a >= 10 && b >= 10 {
        let p = decimal(a / 10);
        let q = decimal(b / 10);
        assert(s.last() == digit(a % 10));
        assert(s.last() == digit(b % 10));
        digit_tells(a % 10, b % 10);
        assert(p =~= s.drop_last());
        assert(q =~= s.drop_last());
        decimal_tells_numbers_apart(a / 10, b / 10);
    } else if a < 10 {
        decimal_digits(b / 10);
        assert(s.len() == 1);
        assert(decimal(b).len() >= 2);
    } else {
        decimal_digits(a / 10);
        assert(decimal(a).len() >= 2);
    }
}

/// A number that is followed by something other than a digit can be told from the
/// text, and so can what follows it.
pub proof fn leading_number_is_told(a: nat, b: nat, rest_a: Seq<char>, rest_b: Seq<char>)
    requires
        decimal(a) + rest_a == decimal(b) + rest_b,
        rest_a.len() == 0 || !is_digit(rest_a[0]),
        rest_b.len() == 0 || !is_digit(rest_b[0]),
    ensures
        a == b,
        rest_a == rest_b,
{
    let p = decimal(a);
    let q = decimal(b);
    let whole = p + rest_a;
    decimal_digits(a);
    decimal_digits(b);
    if p.len() < q.len() {
        assert(whole[p.len() as int] == q[p.len() as int]);
        assert(is_digit(q[p.len() as int]));
        assert(whole.len() > p.len());
        assert(rest_a[0] == whole[p.len() as int]);
    } else if q.len() < p.len() {
        assert((q + rest_b)[q.len() as int] == p[q.len() as int]);
        assert(is_digit(p[q.len() as int]));
        assert(rest_b[0] == (q + rest_b)[q.len() as int]);
    }
    assert(p =~= whole.take(p.len() as int));
    assert(q =~= (q + rest_b).take(q.len() as int));
    decimal_tells_numbers_apart(a, b);
    assert(rest_a =~= whole.skip(p.len() as int));
    assert(rest_b =~= (q + rest_b).skip(q.len() as int));
}

/// Text behind the same beginning is told from the whole.
pub proof fn same_beginning(start: Seq<char>, a: Seq<char>, b: Seq<char>)
    requires
        start + a == start + b,
    ensures
        a == b,
{
    assert(a =~= (start + a).skip(start.len() as int));
    assert(b =~= (start + b).skip(start.len() as int));
}

/// Where two names first differ decides by the code points there, and a name stands before
/// every longer one that begins with it.
pub proof fn first_difference_decides(start: Seq<char>, x: char, y: char, a: Seq<char>, b: Seq<char>)
    ensures
        x != y ==> (name_lt(start + seq![x] + a, start + seq![y] + b) <==> (x as u32) < (y as u32)),
        a.len() > 0 ==> name_lt(start, start + a) && !name_lt(start + a, start),
    decreases start.len(),
{
    let p = start + seq![x] + a;
    let q = start + seq![y] + b;
    let r = start + a;
    if start.len() == 0 {
        assert(p[0] == x && q[0] == y);
        assert(r =~= a);
    } else {
        let t = start.drop_first();
        first_difference_decides(t, x, y, a, b);
        assert(p[0] == start[0] && q[0] == start[0] && r[0] == start[0]);
        assert(p.drop_first() =~= t + seq![x] + a);
        assert(q.drop_first() =~= t + seq![y] + b);
        assert(r.drop_first() =~= t + a);
    }
}

/// The number that a text of decimal digits stands for.
pub open spec fn number_of(text: Seq<char>) -> int
    decreases text.len(),
{
    if text.len() == 0 {
        0
    } else {
        10 * number_of(text.drop_last()) + (text.last() as u32 - 48)
    }
}

/// The decimal text of a number reads back as that number and begins with a zero only where
/// the number is zero.
pub proof fn decimal_reads_back(n: nat)
    ensures
        number_of(decimal(n)) == n,
        decimal(n)[0] == '0' ==> n == 0,
    decreases n,
{
    let t = decimal(n);
    if n < 10 {
        assert(t.drop_last() =~= Seq::empty());
        assert(t.last() == digit(n));
        assert(number_of(t.drop_last()) == 0);
        assert(digit(n) as u32 == 48 + n);
        assert(t[0] == digit(n));
    } else {
        decimal_reads_back(n / 10);
        decimal_digits(n / 10);
        assert(t.drop_last() =~= decimal(n / 10));
        assert(t.last() == digit(n % 10));
        assert(digit(n % 10) as u32 == 48 + n % 10);
        assert(t[0] == decimal(n / 10)[0]);
    }
}

/// The text of a negative number is a minus sign and that of the number without it.
pub proof fn negative_numbers_have_a_sign(n: int)
    ensures
        n >= 0 ==> number_of(decimal_int(n)) == n && decimal_int(n)[0] != '-',
        n < 0 ==> decimal_int(n)[0] == '-' && number_of(decimal_int(n).drop_first()) == -n,
{
    if n >= 0 {
        decimal_reads_back(n as nat);
        decimal_digits(n as nat);
        assert(is_digit(decimal(n as nat)[0]));
    } else {
        decimal_reads_back((-n) as nat);
        assert(decimal_int(n).drop_first() =~= decimal((-n) as nat));
    }
}

/// A list of names is shown between square brackets: one name as it is quoted, and lists put
/// side by side with a comma and a blank.
pub proof fn shown_names_are_put_side_by_side(a: Seq<Seq<char>>, b: Seq<Seq<char>>, name: Seq<char>)
    ensures
        shown_list(a) == "["@ + quoted_list(a) + "]"@,
        quoted_list(Seq::empty()) == Seq::<char>::empty(),
        quoted_list(seq![name]) == debug_text(name),
        a.len() > 0 && b.len() > 0 ==> quoted_list(a + b) == quoted_list(a) + ", "@ + quoted_list(b),
    decreases b.len(),
{
    if a.len() > 0 && b.len() > 0 {
        let t = b.drop_last();
        assert((a + b).drop_last() =~= a + t);
        assert((a + b).last() == b.last());
        if t.len() > 0 {
            shown_names_are_put_side_by_side(a, t, name);
            assert(quoted_list(a) + ", "@ + quoted_list(t) + ", "@ + debug_text(b.last()) =~= quoted_list(a)
                + ", "@ + (quoted_list(t) + ", "@ + debug_text(b.last())));
        } else {
            assert(a + t =~= a);
            assert(b[0] == b.last());
        }
    }
}

} // verus!
