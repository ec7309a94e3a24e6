//! Decimal text of numbers and lists of indices, and error messages.
use vstd::prelude::*;
use vstd::string::StringExecFns;

verus! {

/// The decimal digit for `d < 10`.
pub open spec fn digit_char(d: nat) -> char {
    (48 + d) as char
}

/// The decimal representation of `n`, most significant digit first.
pub open spec fn decimal_text(n: nat) -> Seq<char>
    decreases n,
{
    if n < 10 {
        seq![digit_char(n)]
    } else {
        decimal_text(n / 10).push(digit_char(n % 10))
    }
}

/// The entries of a list of indices in decimal, separated by `", "`.
pub open spec fn index_list_entries(v: Seq<usize>) -> Seq<char>
    decreases v.len(),
{
    if v.len() == 0 {
        Seq::empty()
    } else if v.len() == 1 {
        decimal_text(v[0] as nat)
    } else {
        index_list_entries(v.drop_last()) + ", "@ + decimal_text(v.last() as nat)
    }
}

/// A list of indices written as `[0, 1, 2]`: the form std's `Debug` gives a
/// list of integers.
pub open spec fn index_list_text(v: Seq<usize>) -> Seq<char> {
    "["@ + index_list_entries(v) + "]"@
}

/// The decimal digit `d` as a one-character string.
fn digit_str(d: usize) -> (r: &'static str)
    requires
        d < 10,
    ensures
        r@ == seq![digit_char(d as nat)],
{
    proof {
        reveal_strlit("0");
        reveal_strlit("1");
        reveal_strlit("2");
        reveal_strlit("3");
        reveal_strlit("4");
        reveal_strlit("5");
        reveal_strlit("6");
        reveal_strlit("7");
        reveal_strlit("8");
        reveal_strlit("9");
    }
    if d == 0 {
        "0"
    } else if d == 1 {
        "1"
    } else if d == 2 {
        "2"
    } else if d == 3 {
        "3"
    } else if d == 4 {
        "4"
    } else if d == 5 {
        "5"
    } else if d == 6 {
        "6"
    } else if d == 7 {
        "7"
    } else if d == 8 {
        "8"
    } else {
        "9"
    }
}

/// `n` written in decimal.
pub(crate) fn usize_text(n: usize) -> (r: String)
    ensures
        r@ == decimal_text(n as nat),
    decreases n,
{
    let d = digit_str(n % 10);
    if n < 10 {
        String::from_str(d)
    } else {
        let mut s = usize_text(n / 10);
        s.append(d);
        proof {
            assert(seq![digit_char((n % 10) as nat)] =~= Seq::<char>::empty().push(
                digit_char((n % 10) as nat),
            ));
            assert(decimal_text(n as nat) == decimal_text((n / 10) as nat).push(
                digit_char((n % 10) as nat),
            ));
            assert(s@ =~= decimal_text(n as nat));
        }
        s
    }
}

/// A list of indices written as `[0, 1, 2]` (see `index_list_text`).
pub(crate) fn index_list_string(v: &Vec<usize>) -> (r: String)
    ensures
        r@ == index_list_text(v@),
{
    let mut s = String::from_str("[");
    let n = v.len();
    for i in 0..n
        invariant
            n == v@.len(),
            s@ == "["@ + index_list_entries(v@.take(i as int)),
    {
        let ghost before = s@;
        if i > 0 {
            s.append(", ");
        }
        let digits = usize_text(v[i]);
        s.append(digits.as_str());
        proof {
            let t = v@.take(i as int + 1);
            assert(t.drop_last() =~= v@.take(i as int));
            assert(t.last() == v@[i as int]);
            if i == 0 {
                assert(t.len() == 1);
                assert(t[0] == v@[0]);
                assert(v@.take(0) =~= Seq::<usize>::empty());
                assert(s@ =~= "["@ + index_list_entries(t));
            } else {
                assert(s@ =~= "["@ + index_list_entries(t));
            }
        }
    }
    assert(v@.take(n as int) =~= v@);
    s.append("]");
    s
}

/// The message of a missing-producer error for input channel `ch` of node `node`.
pub open spec fn missing_producer_text(ch: Seq<char>, node: usize) -> Seq<char> {
    "Missing producer for input channel '"@ + ch + "' (node index "@ + decimal_text(node as nat)
        + ")"@
}

/// Builds the message of a missing-producer error.
pub fn missing_producer_message(ch: &str, node: usize) -> (r: String)
    ensures
        r@ == missing_producer_text(ch@, node),
{
    let mut s = "Missing producer for input channel '".to_owned();
    s.append(ch);
    s.append("' (node index ");
    let digits = usize_text(node);
    s.append(digits.as_str());
    s.append(")");
    s
}

} // verus!
