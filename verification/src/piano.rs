//! Piano key names: `C4`, `A#3`, and the index of each key.
use vstd::prelude::*;
use vstd::string::*;

use crate::text::{decimal, push_char, push_decimal};

verus! {

/// The name of semitone `k` (below 12) of an octave, starting from C.
pub open spec fn key_name(k: int) -> Seq<char> {
    if k == 0 { seq!['C'] }
    else if k == 1 { seq!['C', '#'] }
    else if k == 2 { seq!['D'] }
    else if k == 3 { seq!['D', '#'] }
    else if k == 4 { seq!['E'] }
    else if k == 5 { seq!['F'] }
    else if k == 6 { seq!['F', '#'] }
    else if k == 7 { seq!['G'] }
    else if k == 8 { seq!['G', '#'] }
    else if k == 9 { seq!['A'] }
    else if k == 10 { seq!['A', '#'] }
    else { seq!['B'] }
}

/// The key name of piano index `index`: its semitone name, then its octave.
pub open spec fn key_of_index(index: nat) -> Seq<char> {
    key_name((index % 12) as int) + decimal(index / 12)
}

/// The semitone named `name`, if it names one.
pub open spec fn semitone_of(name: Seq<char>) -> Option<int> {
    if exists|k: int| 0 <= k < 12 && key_name(k) == name {
        Some(choose|k: int| 0 <= k < 12 && key_name(k) == name)
    } else {
        None
    }
}

/// The value of an octave digit.
pub open spec fn digit_value(c: char) -> Option<int> {
    if '0' <= c && c <= '9' {
        Some(c as int - '0' as int)
    } else {
        None
    }
}

/// The piano index named by `key`: a semitone name followed by a one-digit octave, at
/// most three bytes long.
pub open spec fn index_of_key(key: &str) -> Option<int> {
    if key.spec_bytes().len() > 3 || key@.len() == 0 {
        None
    } else {
        match (semitone_of(key@.drop_last()), digit_value(key@.last())) {
            (Some(k), Some(octave)) => Some(k + 12 * octave),
            _ => None,
        }
    }
}

fn push_key_name(s: &mut String, k: usize)
    requires
        k < 12,
    ensures
        final(s)@ == old(s)@ + key_name(k as int),
{
    let (c, sharp) = if k == 0 { ('C', false) }
        else if k == 1 { ('C', true) }
        else if k == 2 { ('D', false) }
        else if k == 3 { ('D', true) }
        else if k == 4 { ('E', false) }
        else if k == 5 { ('F', false) }
        else if k == 6 { ('F', true) }
        else if k == 7 { ('G', false) }
        else if k == 8 { ('G', true) }
        else if k == 9 { ('A', false) }
        else if k == 10 { ('A', true) }
        else { ('B', false) };
    push_char(s, c);
    if sharp {
        push_char(s, '#');
        assert(old(s)@.push(c).push('#') =~= old(s)@ + key_name(k as int));
    } else {
        assert(old(s)@.push(c) =~= old(s)@ + key_name(k as int));
    }
}

/// The name of piano key `index`, counting semitones from C0: `C0`, `C#0`, ..., `B0`,
/// `C1`, ...
pub fn index_to_key(index: usize) -> (r: String)
    ensures
        r@ == key_of_index(index as nat),
{
    let mut s = String::new();
    push_key_name(&mut s, index % 12);
    push_decimal(&mut s, (index / 12) as u64);
    assert(s@ =~= key_of_index(index as nat));
    s
}

proof fn lemma_key_names_distinct(a: int, b: int)
    requires
        0 <= a < 12,
        0 <= b < 12,
        key_name(a) == key_name(b),
    ensures
        a == b,
{
    let na = key_name(a);
    let nb = key_name(b);
    assert(na.len() == nb.len());
    assert(na[0] == nb[0]);
}

fn semitone(name: &Vec<char>) -> (r: Option<usize>)
    ensures
        match r {
            Some(k) => semitone_of(name@) == Some(k as int),
            None => semitone_of(name@) is None,
        },
{
    let mut k: usize = 0;
    while k < 12
        invariant
            k <= 12,
            forall|j: int| 0 <= j < k ==> key_name(j) != name@,
        decreases 12 - k,
    {
        let mut expected = String::new();
        push_key_name(&mut expected, k);
        let mut same = false;
        if expected.unicode_len() == name.len() {
            let mut i: usize = 0;
            same = true;
            while i < name.len()
                invariant
                    expected@ == key_name(k as int),
                    expected@.len() == name@.len(),
                    i <= name.len(),
                    same == (forall|j: int| 0 <= j < i ==> expected@[j] == name@[j]),
                decreases name.len() - i,
            {
                if expected.as_str().get_char(i) != name[i] {
                    same = false;
                }
                i = i + 1;
            }
            if same {
                assert(expected@ =~= name@);
            }
        }
        if same {
            proof {
                assert(key_name(k as int) == name@);
                let c = choose|j: int| 0 <= j < 12 && key_name(j) == name@;
                lemma_key_names_distinct(c, k as int);
            }
            return Some(k);
        }
        proof {
            if key_name(k as int) == name@ {
                assert(expected@ =~= name@);
                assert(expected@.len() == name@.len());
                assert forall|j: int| 0 <= j < name@.len() implies expected@[j] == name@[j] by {}
            }
        }
        k = k + 1;
    }
    None
}

/// The piano index of a key name such as `C4` or `A#3`: twelve times the octave plus the
/// semitone. Names longer than three bytes, unknown semitones and octaves that are not one
/// digit give `None`. The name must not be empty, and a name of at most three bytes must
/// end in an ASCII character, where the octave is split off by byte position.
pub fn pianokey_index(key: &str) -> (r: Option<i32>)
    requires
        key@.len() > 0,
        key.spec_bytes().len() <= 3 ==> (key@.last() as u32) < 128,
    ensures
        match r {
            Some(i) => index_of_key(key) == Some(i as int),
            None => index_of_key(key) is None,
        },
{
    if key.as_bytes().len() > 3 {
        return None;
    }
    let n = key.unicode_len();
    let last = key.get_char(n - 1);
    let octave: i32 = if '0' <= last && last <= '9' {
        (last as u32 - '0' as u32) as i32
    } else {
        return None;
    };
    let mut name: Vec<char> = Vec::new();
    let mut i: usize = 0;
    while i < n - 1
        invariant
            n == key@.len(),
            n > 0,
            i <= n - 1,
            name@ == key@.take(i as int),
        decreases n - 1 - i,
    {
        name.push(key.get_char(i));
        assert(name@ =~= key@.take(i + 1));
        i = i + 1;
    }
    assert(name@ =~= key@.drop_last());
    assert(last == key@.last());
    assert(digit_value(last) == Some(octave as int));
    assert(key.spec_bytes().len() <= 3);
    match semitone(&name) {
        Some(k) => Some(k as i32 + 12 * octave),
        None => None,
    }
}

} // verus!

verus! {

/// Reading back the name of a key from the first ten octaves gives the key's index.
pub proof fn key_name_round_trip(s: &str, index: nat)
    requires
        index < 120,
        s@ == key_of_index(index),
    ensures
        index_of_key(s) == Some(index as int),
{
    broadcast use vstd::string::is_ascii_spec_bytes;

    let k = (index % 12) as int;
    let d = index / 12;
    assert(d < 10);
    assert(decimal(d) == seq![crate::text::digit_char(d)]);
    let name = key_name(k);
    assert(s@ =~= name.push(crate::text::digit_char(d)));
    assert(s@.drop_last() =~= name);
    assert(digit_value(s@.last()) == Some(d as int)) by {
        if d == 0 { } else if d == 1 { } else if d == 2 { } else if d == 3 { } else if d == 4 { }
        else if d == 5 { } else if d == 6 { } else if d == 7 { } else if d == 8 { } else { }
    }
    assert(is_ascii(s)) by {
        assert forall|i: int| 0 <= i < s@.len() implies (#[trigger] s@[i]) as u32 <= 0x7f by {
            if i < name.len() {
                assert(s@[i] == name[i]);
            } else {
                assert(s@[i] == crate::text::digit_char(d));
            }
        }
        assert(vstd::utf8::is_ascii_chars(s@));
    }
    assert(s.spec_bytes().len() == s@.len());
    assert(semitone_of(name) == Some(k)) by {
        assert(key_name(k) == name);
        let c = choose|j: int| 0 <= j < 12 && key_name(j) == name;
        lemma_key_names_distinct(c, k);
    }
}

/// Every character of a decimal numeral is a digit; from 10 on it takes two or more.
proof fn lemma_decimal_digits(n: nat)
    ensures
        decimal(n).len() >= 1,
        n >= 10 ==> decimal(n).len() >= 2,
        forall|i: int| 0 <= i < decimal(n).len() ==> '0' <= #[trigger] decimal(n)[i] <= '9',
    decreases n,
{
    if n >= 10 {
        lemma_decimal_digits(n / 10);
        let head = decimal(n / 10);
        assert(decimal(n) == head.push(crate::text::digit_char(n % 10)));
        assert forall|i: int| 0 <= i < decimal(n).len() implies '0' <= #[trigger] decimal(n)[i] <= '9' by {
            if i < head.len() {
                assert(decimal(n)[i] == head[i]);
            }
        }
    }
}

/// Reading back the name of a key from the eleventh octave on gives no key: its octave
/// takes two digits, so the name is longer than three bytes or splits into a semitone
/// name that ends in a digit.
pub proof fn key_names_past_ten_octaves_name_no_key(s: &str, index: nat)
    requires
        index >= 120,
        s@ == key_of_index(index),
    ensures
        index_of_key(s) is None,
{
    broadcast use vstd::string::is_ascii_spec_bytes;

    let k = (index % 12) as int;
    let d = index / 12;
    assert(d >= 10);
    lemma_decimal_digits(d);
    let name = key_name(k);
    let num = decimal(d);
    assert(s@ =~= name + num);
    assert(is_ascii(s)) by {
        assert forall|i: int| 0 <= i < s@.len() implies (#[trigger] s@[i]) as u32 <= 0x7f by {
            if i < name.len() {
                assert(s@[i] == name[i]);
            } else {
                assert(s@[i] == num[i - name.len()]);
            }
        }
        assert(vstd::utf8::is_ascii_chars(s@));
    }
    assert(s.spec_bytes().len() == s@.len());
    if s@.len() <= 3 {
        let dl = s@.drop_last();
        assert(name.len() == 1);
        assert(dl.len() == 2);
        assert(dl[1] == num[0]);
        assert forall|j: int| 0 <= j < 12 implies key_name(j) != dl by {
            if key_name(j).len() == 2 {
                assert(key_name(j)[1] == '#');
            }
        }
        assert(semitone_of(dl) is None);
    }
}

/// Key `12 * o + k` is semitone `k` of octave `o`.
proof fn lemma_octave_index(o: nat, k: nat)
    requires
        k < 12,
    ensures
        (12 * o + k) % 12 == k,
        (12 * o + k) / 12 == o,
{
    vstd::arithmetic::div_mod::lemma_fundamental_div_mod_converse((12 * o + k) as int, 12, o as int, k as int);
}

/// The keys of octave `o` are named, from C upwards, C, C#, D, D#, E, F, F#, G, G#, A,
/// A#, B, each followed by the octave number.
pub proof fn octave_key_names(o: nat)
    ensures
        key_of_index(12 * o) == seq!['C'] + decimal(o),
        key_of_index(12 * o + 1) == seq!['C', '#'] + decimal(o),
        key_of_index(12 * o + 2) == seq!['D'] + decimal(o),
        key_of_index(12 * o + 3) == seq!['D', '#'] + decimal(o),
        key_of_index(12 * o + 4) == seq!['E'] + decimal(o),
        key_of_index(12 * o + 5) == seq!['F'] + decimal(o),
        key_of_index(12 * o + 6) == seq!['F', '#'] + decimal(o),
        key_of_index(12 * o + 7) == seq!['G'] + decimal(o),
        key_of_index(12 * o + 8) == seq!['G', '#'] + decimal(o),
        key_of_index(12 * o + 9) == seq!['A'] + decimal(o),
        key_of_index(12 * o + 10) == seq!['A', '#'] + decimal(o),
        key_of_index(12 * o + 11) == seq!['B'] + decimal(o),
{
    lemma_octave_index(o, 0);
    lemma_octave_index(o, 1);
    lemma_octave_index(o, 2);
    lemma_octave_index(o, 3);
    lemma_octave_index(o, 4);
    lemma_octave_index(o, 5);
    lemma_octave_index(o, 6);
    lemma_octave_index(o, 7);
    lemma_octave_index(o, 8);
    lemma_octave_index(o, 9);
    lemma_octave_index(o, 10);
    lemma_octave_index(o, 11);
}

} // verus!

