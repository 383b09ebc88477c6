use vstd::prelude::*;

use crate::json::chars_of;

verus! {

/// A key as it stands in a JSON pointer: `~` becomes `~0` and `/` becomes `~1`.
pub open spec fn escaped(key: Seq<char>) -> Seq<char>
    decreases key.len(),
{
    if key.len() == 0 {
        Seq::empty()
    } else {
        let c = key.last();
        escaped(key.drop_last()) + if c == '~' {
            seq!['~', '0']
        } else if c == '/' {
            seq!['~', '1']
        } else {
            seq![c]
        }
    }
}

pub open spec fn digit_char(d: nat) -> char {
    if d == 0 { '0' }
    else if d == 1 { '1' }
    else if d == 2 { '2' }
    else if d == 3 { '3' }
    else if d == 4 { '4' }
    else if d == 5 { '5' }
    else if d == 6 { '6' }
    else if d == 7 { '7' }
    else if d == 8 { '8' }
    else { '9' }
}

/// The decimal digits of `n`.
pub open spec fn decimal(n: nat) -> Seq<char>
    decreases n,
{
    if n < 10 {
        seq![digit_char(n)]
    } else {
        decimal(n / 10) + seq![digit_char(n % 10)]
    }
}

/// The location one pointer segment below `loc`.
pub open spec fn below(loc: Seq<char>, segment: Seq<char>) -> Seq<char> {
    loc + seq!['/'] + segment
}

/// The location of a document's root.
pub open spec fn root_location() -> Seq<char> {
    seq!['#']
}

fn digit(d: usize) -> (c: char)
    requires
        d < 10,
    ensures
        c == digit_char(d as nat),
{
    if d == 0 { '0' }
    else if d == 1 { '1' }
    else if d == 2 { '2' }
    else if d == 3 { '3' }
    else if d == 4 { '4' }
    else if d == 5 { '5' }
    else if d == 6 { '6' }
    else if d == 7 { '7' }
    else if d == 8 { '8' }
    else { '9' }
}

fn push_decimal(n: usize, out: &mut Vec<char>)
    ensures
        final(out)@ == old(out)@ + decimal(n as nat),
    decreases n,
{
    if n < 10 {
        out.push(digit(n));
        assert(final(out)@ =~= old(out)@ + decimal(n as nat));
    } else {
        push_decimal(n / 10, out);
        out.push(digit(n % 10));
        assert(final(out)@ =~= old(out)@ + decimal(n as nat));
    }
}

/// `loc` followed by `/` and the escaped key.
pub fn below_key(loc: &Vec<char>, key: &str) -> (r: Vec<char>)
    ensures
        r@ == below(loc@, escaped(key@)),
{
    let k = chars_of(key);
    let mut r = loc.clone();
    r.push('/');
    let ghost start = r@;
    let mut i: usize = 0;
    while i < k.len()
        invariant
            i <= k@.len(),
            r@ == start + escaped(k@.take(i as int)),
        decreases k.len() - i,
    {
        let c = k[i];
        proof {
            assert(k@.take(i + 1).drop_last() =~= k@.take(i as int));
        }
        if c == '~' {
            r.push('~');
            r.push('0');
        } else if c == '/' {
            r.push('~');
            r.push('1');
        } else {
            r.push(c);
        }
        i += 1;
        assert(r@ =~= start + escaped(k@.take(i as int)));
    }
    assert(k@.take(k@.len() as int) =~= k@);
    assert(r@ =~= below(loc@, escaped(key@)));
    r
}

/// `loc` followed by `/` and the decimal digits of `n`.
pub fn below_index(loc: &Vec<char>, n: usize) -> (r: Vec<char>)
    ensures
        r@ == below(loc@, decimal(n as nat)),
{
    let mut r = loc.clone();
    r.push('/');
    push_decimal(n, &mut r);
    assert(r@ =~= below(loc@, decimal(n as nat)));
    r
}

pub fn root() -> (r: Vec<char>)
    ensures
        r@ == root_location(),
{
    let mut r: Vec<char> = Vec::new();
    r.push('#');
    assert(r@ =~= root_location());
    r
}

} // verus!
