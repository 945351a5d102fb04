use vstd::prelude::*;
use vstd::slice::{slice_subrange, slice_to_vec};

verus! {

/// Relies on std's `String::push`: appends the given character at the end of
/// the string.
#[verifier::external_body]
pub(crate) fn push_char(s: &mut String, c: char)
    ensures
        final(s)@ == old(s)@.push(c),
{
    s.push(c);
}

/// The character that prints a single decimal digit.
pub open spec fn digit_char(d: nat) -> char
    recommends
        d < 10,
{
    if d == 0 {
        '0'
    } else if d == 1 {
        '1'
    } else if d == 2 {
        '2'
    } else if d == 3 {
        '3'
    } else if d == 4 {
        '4'
    } else if d == 5 {
        '5'
    } else if d == 6 {
        '6'
    } else if d == 7 {
        '7'
    } else if d == 8 {
        '8'
    } else {
        '9'
    }
}

/// The decimal rendering of a number, most significant digit first, with no
/// leading zeros (a single `'0'` for zero itself).
pub open spec fn dec_digits(n: nat) -> Seq<char>
    decreases n,
{
    if n < 10 {
        seq![digit_char(n)]
    } else {
        dec_digits(n / 10).push(digit_char(n % 10))
    }
}

fn digit_to_char(d: u8) -> (c: char)
    requires
        d < 10,
    ensures
        c == digit_char(d as nat),
{
    if d == 0 {
        '0'
    } else if d == 1 {
        '1'
    } else if d == 2 {
        '2'
    } else if d == 3 {
        '3'
    } else if d == 4 {
        '4'
    } else if d == 5 {
        '5'
    } else if d == 6 {
        '6'
    } else if d == 7 {
        '7'
    } else if d == 8 {
        '8'
    } else {
        '9'
    }
}

/// Renders a port number (or any other small integer) in decimal.
pub fn decimal_string(n: u16) -> (s: String)
    ensures
        s@ == dec_digits(n as nat),
    decreases n,
{
    if n < 10 {
        let mut s = String::new();
        let c = digit_to_char(n as u8);
        push_char(&mut s, c);
        proof {
            assert(s@ =~= dec_digits(n as nat));
        }
        s
    } else {
        let mut s = decimal_string(n / 10);
        let c = digit_to_char((n % 10) as u8);
        push_char(&mut s, c);
        s
    }
}

/// Where a separator byte first occurs, if anywhere.
pub fn find_byte(s: &[u8], sep: u8) -> (r: Option<usize>)
    ensures
        match r {
            Some(i) => i < s@.len() && s@[i as int] == sep && (forall|j: int|
                0 <= j < i ==> s@[j] != sep),
            None => forall|j: int| 0 <= j < s@.len() ==> s@[j] != sep,
        },
{
    let n = s.len();
    let mut i: usize = 0;
    while i < n
        invariant
            n == s@.len(),
            i <= n,
            forall|j: int| 0 <= j < i ==> s@[j] != sep,
        decreases n - i,
    {
        if s[i] == sep {
            return Some(i);
        }
        i = i + 1;
    }
    None
}

/// The pieces a sequence falls into at a separator: one piece more than
/// there are separators, each piece free of the separator, in order.
pub open spec fn split_on<T>(s: Seq<T>, sep: T) -> Seq<Seq<T>>
    decreases s.len(),
{
    if s.len() == 0 {
        seq![Seq::<T>::empty()]
    } else {
        let rest = split_on(s.skip(1), sep);
        if s[0] == sep {
            seq![Seq::<T>::empty()] + rest
        } else {
            seq![seq![s[0]] + rest[0]] + rest.skip(1)
        }
    }
}

pub proof fn lemma_split_on_len<T>(s: Seq<T>, sep: T)
    ensures
        split_on(s, sep).len() >= 1,
    decreases s.len(),
{
    if s.len() != 0 {
        lemma_split_on_len(s.skip(1), sep);
    }
}

/// Splitting at the first separator: the piece before it, then the splitting
/// of what follows it.
pub proof fn lemma_split_on_first<T>(s: Seq<T>, sep: T, i: int)
    requires
        0 <= i < s.len(),
        s[i] == sep,
        forall|j: int| 0 <= j < i ==> s[j] != sep,
    ensures
        split_on(s, sep) == seq![s.take(i)] + split_on(s.skip(i + 1), sep),
    decreases i,
{
    lemma_split_on_len(s.skip(1), sep);
    if i == 0 {
        assert(s.take(0) =~= Seq::<T>::empty());
        assert(s.skip(1) =~= s.skip(i + 1));
        assert(split_on(s, sep) =~= seq![s.take(i)] + split_on(s.skip(i + 1), sep));
    } else {
        assert(forall|j: int| 0 <= j < i - 1 ==> s.skip(1)[j] != sep);
        lemma_split_on_first(s.skip(1), sep, i - 1);
        let rest = split_on(s.skip(1), sep);
        assert(s.skip(1).skip(i) =~= s.skip(i + 1));
        assert(rest[0] == s.skip(1).take(i - 1));
        assert(rest.skip(1) =~= split_on(s.skip(1).skip(i), sep));
        assert(seq![s[0]] + s.skip(1).take(i - 1) =~= s.take(i));
        assert(split_on(s, sep) =~= seq![s.take(i)] + split_on(s.skip(i + 1), sep));
    }
}

/// Splitting with no separator present: the whole sequence, in one piece.
pub proof fn lemma_split_on_none<T>(s: Seq<T>, sep: T)
    requires
        forall|j: int| 0 <= j < s.len() ==> s[j] != sep,
    ensures
        split_on(s, sep) == seq![s],
    decreases s.len(),
{
    if s.len() == 0 {
        assert(Seq::<T>::empty() =~= s);
        assert(split_on(s, sep) =~= seq![s]);
    } else {
        assert(forall|j: int| 0 <= j < s.skip(1).len() ==> s.skip(1)[j] != sep);
        lemma_split_on_none(s.skip(1), sep);
        assert(seq![s[0]] + s.skip(1) =~= s);
        assert(split_on(s.skip(1), sep).skip(1) =~= Seq::<Seq<T>>::empty());
        assert(split_on(s, sep) =~= seq![s]);
    }
}

/// Splits a byte slice at every occurrence of a separator.
pub fn split_bytes(s: &[u8], sep: u8) -> (parts: Vec<Vec<u8>>)
    ensures
        parts@.map_values(|p: Vec<u8>| p@) == split_on(s@, sep),
    decreases s@.len(),
{
    let n = s.len();
    match find_byte(s, sep) {
        None => {
            proof {
                lemma_split_on_none(s@, sep);
            }
            let mut parts: Vec<Vec<u8>> = Vec::new();
            parts.push(slice_to_vec(s));
            proof {
                assert(parts@.map_values(|p: Vec<u8>| p@) =~= split_on(s@, sep));
            }
            parts
        },
        Some(i) => {
            let head = slice_subrange(s, 0, i);
            let tail = slice_subrange(s, i + 1, n);
            proof {
                lemma_split_on_first(s@, sep, i as int);
                assert(tail@ =~= s@.skip(i + 1));
                assert(head@ =~= s@.take(i as int));
            }
            let mut parts = split_bytes(tail, sep);
            parts.insert(0, slice_to_vec(head));
            proof {
                let whole = split_on(s@, sep);
                let after = split_on(s@.skip(i + 1), sep);
                assert(whole == seq![s@.take(i as int)] + after);
                assert(whole[0] == s@.take(i as int));
                assert(forall|k: int| 1 <= k < whole.len() ==> whole[k] == after[k - 1]);
                assert(parts@.map_values(|p: Vec<u8>| p@) =~= whole);
            }
            parts
        },
    }
}

/// The key and value a component falls into at its first separator: the part
/// before the first occurrence, and the part after it. Without a separator
/// the whole component is the key and the value is empty.
pub open spec fn split_first_on<T>(s: Seq<T>, sep: T) -> (Seq<T>, Seq<T>)
    decreases s.len(),
{
    if s.len() == 0 {
        (Seq::<T>::empty(), Seq::<T>::empty())
    } else if s[0] == sep {
        (Seq::<T>::empty(), s.skip(1))
    } else {
        let (k, v) = split_first_on(s.skip(1), sep);
        (seq![s[0]] + k, v)
    }
}

pub proof fn lemma_split_first_on_at<T>(s: Seq<T>, sep: T, i: int)
    requires
        0 <= i < s.len(),
        s[i] == sep,
        forall|j: int| 0 <= j < i ==> s[j] != sep,
    ensures
        split_first_on(s, sep).0 == s.take(i),
        split_first_on(s, sep).1 == s.skip(i + 1),
    decreases i,
{
    if i == 0 {
        assert(s.take(0) =~= Seq::<T>::empty());
        assert(s.skip(1) =~= s.skip(i + 1));
    } else {
        assert(forall|j: int| 0 <= j < i - 1 ==> s.skip(1)[j] != sep);
        lemma_split_first_on_at(s.skip(1), sep, i - 1);
        assert(s.skip(1).skip(i) =~= s.skip(i + 1));
        assert(seq![s[0]] + s.skip(1).take(i - 1) =~= s.take(i));
    }
}

pub proof fn lemma_split_first_on_none<T>(s: Seq<T>, sep: T)
    requires
        forall|j: int| 0 <= j < s.len() ==> s[j] != sep,
    ensures
        split_first_on(s, sep).0 == s,
        split_first_on(s, sep).1 == Seq::<T>::empty(),
    decreases s.len(),
{
    if s.len() != 0 {
        assert(forall|j: int| 0 <= j < s.skip(1).len() ==> s.skip(1)[j] != sep);
        lemma_split_first_on_none(s.skip(1), sep);
        assert(seq![s[0]] + s.skip(1) =~= s);
    }
}

/// Splits a component into its key and value at the first separator.
pub fn split_first_byte(s: &[u8], sep: u8) -> (kv: (Vec<u8>, Vec<u8>))
    ensures
        kv.0@ == split_first_on(s@, sep).0,
        kv.1@ == split_first_on(s@, sep).1,
{
    let n = s.len();
    match find_byte(s, sep) {
        None => {
            proof {
                lemma_split_first_on_none(s@, sep);
            }
            (slice_to_vec(s), Vec::new())
        },
        Some(i) => {
            let k = slice_subrange(s, 0, i);
            let v = slice_subrange(s, i + 1, n);
            proof {
                lemma_split_first_on_at(s@, sep, i as int);
                assert(k@ =~= s@.take(i as int));
                assert(v@ =~= s@.skip(i + 1));
            }
            (slice_to_vec(k), slice_to_vec(v))
        },
    }
}

/// Filtering one further element: it stays exactly when it meets the
/// predicate.
pub proof fn lemma_filter_push<T>(s: Seq<T>, pred: spec_fn(T) -> bool, x: T)
    ensures
        s.push(x).filter(pred) == if pred(x) {
            s.filter(pred).push(x)
        } else {
            s.filter(pred)
        },
{
    reveal(Seq::filter);
    assert(s.push(x).drop_last() =~= s);
    assert(s.push(x).last() == x);
    assert(s.push(x).len() == s.len() + 1);
}

} // verus!
