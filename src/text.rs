use vstd::prelude::*;

use crate::time::{digit_value, digits_value, is_digit};

verus! {

pub open spec fn digit_chars() -> Seq<char> {
    seq!['0', '1', '2', '3', '4', '5', '6', '7', '8', '9']
}

/// The decimal representation of `n`, without leading zeros.
pub open spec fn decimal(n: nat) -> Seq<char>
    decreases n,
{
    if n < 10 {
        seq![digit_chars()[n as int]]
    } else {
        decimal(n / 10).push(digit_chars()[(n % 10) as int])
    }
}

/// The decimal forms of `values`, joined by commas.
pub open spec fn joined(values: Seq<u32>) -> Seq<char>
    decreases values.len(),
{
    if values.len() == 0 {
        Seq::empty()
    } else if values.len() == 1 {
        decimal(values[0] as nat)
    } else {
        joined(values.drop_last()) + seq![','] + decimal(values.last() as nat)
    }
}

/// The text of an offset list: `[v0,v1,...,vn]`, with no whitespace.
pub open spec fn list_text(values: Seq<u32>) -> Seq<char> {
    seq!['['] + joined(values) + seq![']']
}

/// The fields of `s` between commas, in order; a text without commas is one field.
pub open spec fn split_commas(s: Seq<char>) -> Seq<Seq<char>>
    decreases s.len(),
{
    if s.len() == 0 {
        seq![Seq::empty()]
    } else {
        let rest = split_commas(s.drop_last());
        if s.last() == ',' {
            rest.push(Seq::empty())
        } else {
            rest.update(rest.len() - 1, rest.last().push(s.last()))
        }
    }
}

/// The integers that a list text holds: the brackets taken off, the rest split on
/// commas, and each field read as a decimal number.
pub open spec fn text_values(s: Seq<char>) -> Seq<int> {
    let inner = s.subrange(1, s.len() - 1);
    if inner.len() == 0 {
        Seq::empty()
    } else {
        split_commas(inner).map_values(|f: Seq<char>| digits_value(f) as int)
    }
}

proof fn lemma_digit_chars(d: int)
    requires
        0 <= d < 10,
    ensures
        is_digit(digit_chars()[d]),
        digit_value(digit_chars()[d]) == d,
{
}

proof fn lemma_decimal(n: nat)
    ensures
        decimal(n).len() > 0,
        forall|i: int| 0 <= i < decimal(n).len() ==> is_digit(#[trigger] decimal(n)[i]),
        digits_value(decimal(n)) == n,
    decreases n,
{
    if n < 10 {
        lemma_digit_chars(n as int);
        let d = decimal(n);
        assert(d.drop_last() =~= Seq::<char>::empty());
        assert(digits_value(Seq::<char>::empty()) == 0);
        assert(digits_value(d) == 10 * digits_value(d.drop_last()) + digit_value(d.last()));
    } else {
        lemma_decimal(n / 10);
        lemma_digit_chars((n % 10) as int);
        let d = decimal(n);
        assert(d.drop_last() =~= decimal(n / 10));
        assert(d.last() == digit_chars()[(n % 10) as int]);
        assert(digits_value(d) == 10 * digits_value(d.drop_last()) + digit_value(d.last()));
        assert forall|i: int| 0 <= i < d.len() implies is_digit(#[trigger] d[i]) by {
            if i < d.len() - 1 {
                assert(d[i] == decimal(n / 10)[i]);
            }
        }
    }
}

proof fn lemma_split_len(s: Seq<char>)
    ensures
        split_commas(s).len() >= 1,
    decreases s.len(),
{
    if s.len() > 0 {
        lemma_split_len(s.drop_last());
    }
}

/// Appending a text without commas extends the last field.
proof fn lemma_split_extend(a: Seq<char>, t: Seq<char>)
    requires
        forall|i: int| 0 <= i < t.len() ==> #[trigger] t[i] != ',',
    ensures
        split_commas(a + t) == split_commas(a).update(
            split_commas(a).len() - 1,
            split_commas(a).last() + t,
        ),
    decreases t.len(),
{
    lemma_split_len(a);
    if t.len() == 0 {
        assert(a + t =~= a);
        assert(split_commas(a).last() + t =~= split_commas(a).last());
        assert(split_commas(a).update(split_commas(a).len() - 1, split_commas(a).last())
            =~= split_commas(a));
    } else {
        let u = t.drop_last();
        assert forall|i: int| 0 <= i < u.len() implies #[trigger] u[i] != ',' by {
            assert(u[i] == t[i]);
        }
        assert(t[t.len() - 1] != ',');
        lemma_split_extend(a, u);
        assert((a + t).drop_last() =~= a + u);
        assert((a + t).last() == t.last());
        let rest = split_commas(a + u);
        let l = split_commas(a).len();
        assert(rest.len() == l);
        assert(rest.last() == split_commas(a).last() + u);
        assert(split_commas(a + t) == rest.update(rest.len() - 1, rest.last().push(t.last())));
        assert((split_commas(a).last() + u).push(t.last()) =~= split_commas(a).last() + t);
        assert(split_commas(a + t) =~= split_commas(a).update(
            split_commas(a).len() - 1,
            split_commas(a).last() + t,
        ));
    }
}

/// A comma followed by a text without commas adds that text as a field.
proof fn lemma_split_comma(a: Seq<char>, t: Seq<char>)
    requires
        forall|i: int| 0 <= i < t.len() ==> #[trigger] t[i] != ',',
    ensures
        split_commas(a + seq![','] + t) == split_commas(a).push(t),
{
    let b = a + seq![','];
    assert(b.drop_last() =~= a);
    lemma_split_extend(b, t);
    lemma_split_len(a);
    assert(Seq::<char>::empty() + t =~= t);
    assert(split_commas(b) == split_commas(a).push(Seq::empty()));
    assert(split_commas(b).update(split_commas(b).len() - 1, split_commas(b).last() + t)
        =~= split_commas(a).push(t));
}

proof fn lemma_no_comma(n: nat)
    ensures
        forall|i: int| 0 <= i < decimal(n).len() ==> #[trigger] decimal(n)[i] != ',',
{
    lemma_decimal(n);
    assert forall|i: int| 0 <= i < decimal(n).len() implies #[trigger] decimal(n)[i] != ',' by {
        assert(is_digit(decimal(n)[i]));
    }
}

proof fn lemma_split_joined(values: Seq<u32>)
    requires
        values.len() > 0,
    ensures
        split_commas(joined(values)) == values.map_values(|v: u32| decimal(v as nat)),
    decreases values.len(),
{
    if values.len() == 1 {
        let d = decimal(values[0] as nat);
        lemma_no_comma(values[0] as nat);
        lemma_split_extend(Seq::empty(), d);
        assert(Seq::<char>::empty() + d =~= d);
        assert(split_commas(Seq::<char>::empty()).update(0, Seq::<char>::empty() + d) =~= seq![d]);
        assert(values.map_values(|v: u32| decimal(v as nat)) =~= seq![d]);
    } else {
        let front = values.drop_last();
        lemma_split_joined(front);
        lemma_no_comma(values.last() as nat);
        lemma_split_comma(joined(front), decimal(values.last() as nat));
        assert(values.map_values(|v: u32| decimal(v as nat)) =~= front.map_values(
            |v: u32| decimal(v as nat),
        ).push(decimal(values.last() as nat)));
    }
}

/// Splitting a rendered list on its brackets and commas gives back every value, in order.
pub proof fn lemma_values_round_trip(values: Seq<u32>)
    ensures
        text_values(list_text(values)) == values.map_values(|v: u32| v as int),
{
    let s = list_text(values);
    assert(s.subrange(1, s.len() - 1) =~= joined(values));
    if values.len() == 0 {
        assert(values.map_values(|v: u32| v as int) =~= Seq::<int>::empty());
    } else {
        lemma_split_joined(values);
        lemma_decimal(values[0] as nat);
        assert(joined(values).len() > 0) by {
            if values.len() > 1 {
                lemma_decimal(values.last() as nat);
            }
        }
        assert forall|i: int| 0 <= i < values.len() implies #[trigger] text_values(s)[i]
            == values[i] as int by {
            lemma_decimal(values[i] as nat);
        }
        assert(text_values(s) =~= values.map_values(|v: u32| v as int));
    }
}

/// Appends the decimal form of `n` to `out`.
fn append_decimal(out: &mut String, n: u32)
    ensures
        final(out)@ == old(out)@ + decimal(n as nat),
    decreases n,
{
    if n >= 10 {
        append_decimal(out, n / 10);
    }
    let digits = "0123456789";
    proof {
        reveal_strlit("0123456789");
        assert(digits@ =~= digit_chars());
    }
    let d = (n % 10) as usize;
    let digit = digits.substring_char(d, d + 1);
    proof {
        assert(digit@ =~= seq![digit_chars()[d as int]]);
    }
    out.append(digit);
    assert(out@ =~= old(out)@ + decimal(n as nat));
}

/// Renders the offsets as `[v0,v1,...,vn]`: decimal numbers joined by commas,
/// in brackets, with no whitespace.
pub fn serialize_values(values: &Vec<u32>) -> (r: String)
    ensures
        r@ == list_text(values@),
{
    let mut out = String::new();
    proof {
        reveal_strlit("[");
        reveal_strlit(",");
        reveal_strlit("]");
    }
    out.append("[");
    assert(values@.take(0) =~= Seq::<u32>::empty());
    assert(out@ =~= seq!['['] + joined(Seq::<u32>::empty()));
    let mut i: usize = 0;
    while i < values.len()
        invariant
            0 <= i <= values@.len(),
            out@ == seq!['['] + joined(values@.take(i as int)),
        decreases values@.len() - i,
    {
        proof {
            reveal_strlit(",");
        }
        if i > 0 {
            out.append(",");
        }
        append_decimal(&mut out, values[i]);
        proof {
            let t = values@.take(i + 1);
            assert(t.drop_last() =~= values@.take(i as int));
            assert(t.last() == values@[i as int]);
            if i > 0 {
                assert(joined(t) == joined(t.drop_last()) + seq![','] + decimal(t.last() as nat));
                assert(out@ =~= seq!['['] + joined(t));
            } else {
                assert(joined(t) == decimal(t[0] as nat));
                assert(out@ =~= seq!['['] + joined(t));
            }
        }
        i = i + 1;
    }
    out.append("]");
    assert(values@.take(values@.len() as int) =~= values@);
    assert(out@ =~= list_text(values@));
    out
}

} // verus!
