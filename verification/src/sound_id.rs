//! Sound identifiers: `sound-` followed by the decimal form of a counter.
use vstd::prelude::*;

verus! {

/// The character of a decimal digit.
pub open spec fn digit_char(d: nat) -> char
    recommends
        d < 10,
{
    (48 + d) as char
}

/// The decimal form of `n`, most significant digit first, without leading zeros.
pub open spec fn decimal(n: nat) -> Seq<char>
    decreases n,
{
    if n < 10 {
        seq![digit_char(n)]
    } else {
        decimal(n / 10).push(digit_char(n % 10))
    }
}

/// The identifier given to the `n`-th loaded sound.
pub open spec fn sound_id_spec(n: nat) -> Seq<char> {
    seq!['s', 'o', 'u', 'n', 'd', '-'] + decimal(n)
}

proof fn lemma_decimal_len(n: nat)
    ensures
        decimal(n).len() >= 1,
        n >= 10 ==> decimal(n).len() >= 2,
    decreases n,
{
    if n >= 10 {
        lemma_decimal_len(n / 10);
    }
}

/// Distinct numbers have distinct decimal forms.
pub proof fn lemma_decimal_injective(a: nat, b: nat)
    requires
        decimal(a) == decimal(b),
    ensures
        a == b,
    decreases a,
{
    lemma_decimal_len(a);
    lemma_decimal_len(b);
    let da = decimal(a);
    let db = decimal(b);
    if a < 10 && b < 10 {
        assert(da[0] == db[0]);
    } else if a >= 10 && b >= 10 {
        assert(da.last() == db.last());
        assert(da.drop_last() =~= decimal(a / 10));
        assert(db.drop_last() =~= decimal(b / 10));
        lemma_decimal_injective(a / 10, b / 10);
    } else {
        assert(da.len() != db.len());
    }
}

/// Sounds loaded at different counts never share an identifier.
pub proof fn lemma_sound_id_injective(a: nat, b: nat)
    requires
        a != b,
    ensures
        sound_id_spec(a) != sound_id_spec(b),
{
    if sound_id_spec(a) == sound_id_spec(b) {
        let p = seq!['s', 'o', 'u', 'n', 'd', '-'];
        assert(sound_id_spec(a).skip(6) =~= decimal(a));
        assert(sound_id_spec(b).skip(6) =~= decimal(b));
        lemma_decimal_injective(a, b);
    }
}

fn push_digit(s: &mut String, d: u64)
    requires
        d < 10,
    ensures
        final(s)@ == old(s)@.push(digit_char(d as nat)),
{
    proof {
        reveal_strlit("0");
        reveal_strlit("1");
        reveal_strlit("2");
        reveal_strlit("3");
        reveal_strlit("4");
        reveal_strlit("5");
        reveal_strlit("6");
        reveal_strlit("7");
        reveal_strlit("8");
        reveal_strlit("9");
    }
    if d == 0 {
        s.append("0");
    } else if d == 1 {
        s.append("1");
    } else if d == 2 {
        s.append("2");
    } else if d == 3 {
        s.append("3");
    } else if d == 4 {
        s.append("4");
    } else if d == 5 {
        s.append("5");
    } else if d == 6 {
        s.append("6");
    } else if d == 7 {
        s.append("7");
    } else if d == 8 {
        s.append("8");
    } else {
        s.append("9");
    }
    assert(final(s)@ =~= old(s)@.push(digit_char(d as nat)));
}

/// Append the decimal form of `n`.
pub fn push_decimal(s: &mut String, n: u64)
    ensures
        final(s)@ == old(s)@ + decimal(n as nat),
    decreases n,
{
    if n >= 10 {
        push_decimal(s, n / 10);
    }
    push_digit(s, n % 10);
    assert(final(s)@ =~= old(s)@ + decimal(n as nat));
}

/// The identifier of the sound loaded when the counter stood at `n`.
pub fn sound_id(n: u64) -> (id: String)
    ensures
        id@ == sound_id_spec(n as nat),
{
    let mut s = String::from_str("sound-");
    proof {
        reveal_strlit("sound-");
    }
    push_decimal(&mut s, n);
    assert(s@ =~= sound_id_spec(n as nat));
    s
}

} // verus!
