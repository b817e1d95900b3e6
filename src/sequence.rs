use vstd::prelude::*;
use vstd::std_specs::iter::IteratorSpec;
use vstd::string::StringExecFns;

verus! {

/// Largest value a page index can take, plus one.
pub const INDEX_BOUND: u64 = 0x1_0000_0000;

/// Whether a file name ends in `.jpg` or `.png`, with something before it.
pub open spec fn is_image_name(s: Seq<char>) -> bool {
    &&& s.len() > 4
    &&& s[s.len() - 4] == '.'
    &&& (s[s.len() - 3] == 'j' && s[s.len() - 2] == 'p' && s[s.len() - 1] == 'g') || (s[s.len()
        - 3] == 'p' && s[s.len() - 2] == 'n' && s[s.len() - 1] == 'g')
}

/// The file name without its four-character extension.
pub open spec fn stem(s: Seq<char>) -> Seq<char> {
    s.subrange(0, s.len() - 4)
}

/// The text with its leading `'0'`s removed.
pub open spec fn trim_zeros(s: Seq<char>) -> Seq<char>
    decreases s.len(),
{
    if s.len() > 0 && s[0] == '0' {
        trim_zeros(s.drop_first())
    } else {
        s
    }
}

pub open spec fn is_digit(c: char) -> bool {
    '0' <= c && c <= '9'
}

pub open spec fn all_digits(s: Seq<char>) -> bool {
    forall|i: int| 0 <= i < s.len() ==> is_digit(#[trigger] s[i])
}

/// Value of a decimal numeral.
pub open spec fn digits_value(s: Seq<char>) -> nat
    decreases s.len(),
{
    if s.len() == 0 {
        0
    } else {
        digits_value(s.drop_last()) * 10 + (s.last() as nat - '0' as nat) as nat
    }
}

/// The page index that a file name carries: its stem without leading zeros,
/// read as a decimal `u32`.
pub open spec fn page_index(s: Seq<char>) -> Option<u32> {
    let t = trim_zeros(stem(s));
    if is_image_name(s) && t.len() > 0 && all_digits(t) && digits_value(t) < INDEX_BOUND {
        Some(digits_value(t) as u32)
    } else {
        None
    }
}

/// The characters of a string, one by one.
pub(crate) fn chars_of(s: &str) -> (v: Vec<char>)
    ensures
        v@ == s@,
{
    broadcast use vstd::string::group_string_axioms;

    let mut it = s.chars();
    let mut v: Vec<char> = Vec::new();
    loop
        invariant
            it.obeys_prophetic_iter_laws(),
            v@ + it.remaining() == s@,
            it.decrease() is Some,
        decreases it.decrease()->0,
    {
        match it.next() {
            Some(c) => {
                v.push(c);
                assert(v@ + it.remaining() =~= s@);
            },
            None => {
                assert(v@ =~= s@);
                return v;
            },
        }
    }
}

proof fn lemma_trim_step(s: Seq<char>, i: int)
    requires
        0 <= i < s.len(),
        s[i] == '0',
    ensures
        trim_zeros(s.subrange(i, s.len() as int)) == trim_zeros(s.subrange(i + 1, s.len() as int)),
{
    assert(s.subrange(i, s.len() as int).drop_first() =~= s.subrange(i + 1, s.len() as int));
}

/// Whether a file name is that of a page image, ending in `.jpg` or `.png`.
pub fn is_image_file_name(name: &str) -> (r: bool)
    ensures
        r == is_image_name(name@),
{
    let c = chars_of(name);
    let n = c.len();
    n > 4 && c[n - 4] == '.' && ((c[n - 3] == 'j' && c[n - 2] == 'p' && c[n - 1] == 'g') || (c[n
        - 3] == 'p' && c[n - 2] == 'n' && c[n - 1] == 'g'))
}

/// Reads the page index from a file name such as `0007.jpg`: the stem with
/// its leading zeros stripped, as a decimal `u32`.
pub fn page_index_of(name: &str) -> (r: Option<u32>)
    ensures
        r == page_index(name@),
{
    if !is_image_file_name(name) {
        return None;
    }
    let c = chars_of(name);
    let end = c.len() - 4;
    let ghost st = stem(name@);
    assert(st =~= c@.subrange(0, end as int));
    assert(st.subrange(0, end as int) =~= st);
    let mut i: usize = 0;
    while i < end && c[i] == '0'
        invariant
            i <= end,
            end == st.len(),
            c@.len() == end + 4,
            forall|j: int| 0 <= j < end ==> st[j] == c@[j],
            trim_zeros(st) == trim_zeros(st.subrange(i as int, end as int)),
        decreases end - i,
    {
        proof {
            lemma_trim_step(st, i as int);
        }
        i += 1;
    }
    let ghost t = st.subrange(i as int, end as int);
    assert(trim_zeros(t) == t);
    if i == end {
        return None;
    }
    let mut acc: u64 = 0;
    let mut k: usize = i;
    while k < end
        invariant
            i <= k <= end,
            end == st.len(),
            c@.len() == end + 4,
            st == stem(name@),
            trim_zeros(st) == t,
            t == st.subrange(i as int, end as int),
            forall|j: int| 0 <= j < end ==> st[j] == c@[j],
            all_digits(st.subrange(i as int, k as int)),
            acc == if digits_value(st.subrange(i as int, k as int)) < INDEX_BOUND {
                digits_value(st.subrange(i as int, k as int))
            } else {
                INDEX_BOUND as nat
            },
        decreases end - k,
    {
        let ch = c[k];
        if !('0' <= ch && ch <= '9') {
            assert(t[k - i] == ch);
            assert(!is_digit(t[k - i]));
            return None;
        }
        let d = (ch as u32 - '0' as u32) as u64;
        let next = acc * 10 + d;
        acc = if next < INDEX_BOUND { next } else { INDEX_BOUND };
        proof {
            let p = st.subrange(i as int, k + 1);
            assert(p.drop_last() =~= st.subrange(i as int, k as int));
            assert(p.last() == ch);
        }
        k += 1;
    }
    assert(st.subrange(i as int, end as int) =~= t);
    if acc < INDEX_BOUND {
        Some(acc as u32)
    } else {
        None
    }
}

/// Whether every name carries a page index.
pub open spec fn all_indexed(s: Seq<String>) -> bool {
    forall|i: int| 0 <= i < s.len() ==> (#[trigger] page_index(s[i]@)) is Some
}

/// Whether the names stand in the order of their page indices.
pub open spec fn ordered_by_index(s: Seq<String>) -> bool {
    forall|i: int, j: int|
        0 <= i < j < s.len() ==> (#[trigger] page_index(s[i]@))->0 <= (#[trigger] page_index(
            s[j]@,
        ))->0
}

/// A file name that carries no page index.
#[derive(Debug)]
pub struct SequencingError {
    pub name: String,
}

proof fn lemma_insert_to_multiset<A>(s: Seq<A>, pos: int, x: A)
    requires
        0 <= pos <= s.len(),
    ensures
        s.insert(pos, x).to_multiset() =~= s.to_multiset().insert(x),
{
    broadcast use vstd::seq_lib::group_to_multiset_ensures;

    let t = s.insert(pos, x);
    t.to_multiset_ensures();
    assert(t.remove(pos) =~= s);
    assert(t[pos] == x);
    assert(t.contains(x));
    let m = t.to_multiset();
    assert(m.count(x) > 0);
    assert(m.remove(x).insert(x) =~= m);
}

/// `out` is `names` rearranged, `out[k]` being `names[perm[k]]`, and names
/// with equal page indices keep their order in `names`.
pub open spec fn is_stable_arrangement(out: Seq<String>, names: Seq<String>, perm: Seq<int>) -> bool {
    &&& perm.len() == out.len()
    &&& forall|k: int| 0 <= k < perm.len() ==> 0 <= #[trigger] perm[k] < names.len() && out[k] == names[perm[k]]
    &&& forall|a: int, b: int| 0 <= a < b < perm.len() ==> #[trigger] perm[a] != #[trigger] perm[b]
    &&& forall|a: int, b: int|
        0 <= a < b < perm.len() && page_index(out[a]@) == page_index(out[b]@) ==> #[trigger] perm[a]
            < #[trigger] perm[b]
}

/// Puts page files in reading order: by the page index in their names, not
/// by the order in which they were listed or written. Names with equal
/// indices keep their listing order.
pub fn sequence_pages(names: &Vec<String>) -> (r: Result<Vec<String>, SequencingError>)
    ensures
        match r {
            Ok(out) => {
                &&& all_indexed(names@)
                &&& out@.to_multiset() == names@.to_multiset()
                &&& ordered_by_index(out@)
                &&& exists|perm: Seq<int>| is_stable_arrangement(out@, names@, perm)
            },
            Err(e) => exists|i: int|
                0 <= i < names@.len() && page_index(names@[i]@) is None && e.name == names@[i],
        },
{
    broadcast use vstd::seq_lib::group_to_multiset_ensures;

    let mut out: Vec<String> = Vec::new();
    let mut keys: Vec<u32> = Vec::new();
    let ghost mut perm: Seq<int> = Seq::empty();
    let mut i: usize = 0;
    while i < names.len()
        invariant
            i <= names@.len(),
            is_stable_arrangement(out@, names@, perm),
            forall|k: int| 0 <= k < perm.len() ==> #[trigger] perm[k] < i,
            out@.len() == keys@.len(),
            forall|k: int| 0 <= k < out@.len() ==> page_index(#[trigger] out@[k]@) == Some(keys@[k]),
            forall|a: int, b: int| 0 <= a < b < keys@.len() ==> keys@[a] <= keys@[b],
            out@.to_multiset() == names@.take(i as int).to_multiset(),
            all_indexed(names@.take(i as int)),
        decreases names@.len() - i,
    {
        let key = match page_index_of(names[i].as_str()) {
            Some(k) => k,
            None => {
                return Err(SequencingError { name: names[i].clone() });
            },
        };
        let mut j: usize = 0;
        while j < keys.len() && keys[j] <= key
            invariant
                j <= keys@.len(),
                forall|a: int| 0 <= a < j ==> keys@[a] <= key,
            decreases keys@.len() - j,
        {
            j += 1;
        }
        let ghost old_out = out@;
        let ghost old_keys = keys@;
        let name = names[i].clone();
        out.insert(j, name);
        keys.insert(j, key);
        let ghost old_perm = perm;
        proof {
            perm = perm.insert(j as int, i as int);
            assert forall|a: int| j <= a < old_keys.len() implies old_keys[a] > key by {
                assert(old_keys[j as int] > key);
            }
            assert forall|k: int| 0 <= k < perm.len() implies 0 <= #[trigger] perm[k] < names@.len()
                && out@[k] == names@[perm[k]] && perm[k] < i + 1 by {
                if k > j {
                    assert(perm[k] == old_perm[k - 1]);
                }
            }
            assert forall|a: int, b: int| 0 <= a < b < perm.len() implies #[trigger] perm[a]
                != #[trigger] perm[b] by {
                if a < j && b > j {
                    assert(perm[b] == old_perm[b - 1]);
                } else if a > j {
                    assert(perm[a] == old_perm[a - 1]);
                    assert(perm[b] == old_perm[b - 1]);
                } else if a == j {
                    assert(perm[b] == old_perm[b - 1]);
                }
            }
            assert forall|a: int, b: int|
                0 <= a < b < perm.len() && page_index(out@[a]@) == page_index(out@[b]@) implies
                #[trigger] perm[a] < #[trigger] perm[b] by {
                assert(page_index(out@[a]@) == Some(keys@[a]));
                assert(page_index(out@[b]@) == Some(keys@[b]));
                if a < j && b > j {
                    assert(perm[b] == old_perm[b - 1]);
                    assert(old_out[a] == out@[a] && old_out[b - 1] == out@[b]);
                    assert(page_index(old_out[a]@) == page_index(old_out[b - 1]@));
                } else if a > j {
                    assert(perm[a] == old_perm[a - 1]);
                    assert(perm[b] == old_perm[b - 1]);
                    assert(old_out[a - 1] == out@[a] && old_out[b - 1] == out@[b]);
                    assert(page_index(old_out[a - 1]@) == page_index(old_out[b - 1]@));
                } else if a == j {
                    assert(keys@[b] == old_keys[b - 1]);
                    assert(old_keys[b - 1] > key);
                } else if b < j {
                    assert(old_out[a] == out@[a] && old_out[b] == out@[b]);
                } else {
                    assert(perm[a] == old_perm[a]);
                }
            }
            assert(is_stable_arrangement(out@, names@, perm));
            lemma_insert_to_multiset(old_out, j as int, names@[i as int]);
            assert(names@.take(i + 1) =~= names@.take(i as int).push(names@[i as int]));
            assert(out@ == old_out.insert(j as int, names@[i as int]));
            names@.take(i as int).to_multiset_ensures();
            assert(names@.take(i as int).push(names@[i as int]).to_multiset() =~= names@.take(
                i as int,
            ).to_multiset().insert(names@[i as int]));
            assert forall|a: int, b: int| 0 <= a < b < keys@.len() implies keys@[a] <= keys@[b] by {
                if j < old_keys.len() {
                    assert(old_keys[j as int] > key);
                }
            }
            assert forall|k: int| 0 <= k < i + 1 implies (#[trigger] page_index(
                names@.take(i + 1)[k]@,
            )) is Some by {
                if k < i {
                    assert(names@.take(i + 1)[k] == names@.take(i as int)[k]);
                }
            }
        }
        i += 1;
    }
    assert(names@.take(names@.len() as int) =~= names@);
    proof {
        assert forall|a: int, b: int| 0 <= a < b < out@.len() implies (#[trigger] page_index(
            out@[a]@,
        ))->0 <= (#[trigger] page_index(out@[b]@))->0 by {
            assert(page_index(out@[a]@) == Some(keys@[a]));
            assert(page_index(out@[b]@) == Some(keys@[b]));
        }
    }
    Ok(out)
}

pub open spec fn digit_char(d: nat) -> char {
    ('0' as nat + d) as char
}

/// Decimal numeral of `n`, without leading zeros.
pub open spec fn decimal(n: nat) -> Seq<char>
    decreases n,
{
    if n < 10 {
        seq![digit_char(n)]
    } else {
        decimal(n / 10).push(digit_char(n % 10))
    }
}

/// The numeral, padded with zeros on the left to four characters.
pub open spec fn padded4(s: Seq<char>) -> Seq<char> {
    if s.len() < 4 {
        Seq::new((4 - s.len()) as nat, |i: int| '0') + s
    } else {
        s
    }
}

/// File name of the page at (1-based) `index`: `0007.jpg` for 7.
pub open spec fn page_name(index: nat) -> Seq<char> {
    padded4(decimal(index)) + seq!['.', 'j', 'p', 'g']
}

fn digit_str(d: u32) -> (r: &'static str)
    requires
        d < 10,
    ensures
        r@ == seq![digit_char(d as nat)],
{
    let r = match d {
        0 => "0",
        1 => "1",
        2 => "2",
        3 => "3",
        4 => "4",
        5 => "5",
        6 => "6",
        7 => "7",
        8 => "8",
        _ => "9",
    };
    proof {
        reveal_strlit("0");
        reveal_strlit("1");
        reveal_strlit("2");
        reveal_strlit("3");
        reveal_strlit("4");
        reveal_strlit("5");
        reveal_strlit("6");
        reveal_strlit("7");
        reveal_strlit("8");
        reveal_strlit("9");
    }
    assert(r@ =~= seq![digit_char(d as nat)]);
    r
}

/// Decimal numeral of `n`.
pub fn decimal_string(n: u32) -> (r: String)
    ensures
        r@ == decimal(n as nat),
    decreases n,
{
    if n < 10 {
        String::from_str(digit_str(n))
    } else {
        let head = decimal_string(n / 10);
        let r = head.concat(digit_str(n % 10));
        assert(r@ =~= decimal(n as nat));
        r
    }
}

proof fn lemma_decimal_len(n: nat)
    ensures
        n < 10 ==> decimal(n).len() == 1,
        10 <= n < 100 ==> decimal(n).len() == 2,
        100 <= n < 1000 ==> decimal(n).len() == 3,
        1000 <= n ==> decimal(n).len() >= 4,
    decreases n,
{
    if n >= 10 {
        lemma_decimal_len(n / 10);
    }
}

/// File name under which the page at (1-based) `index` is stored.
pub fn page_file_name(index: u32) -> (r: String)
    ensures
        r@ == page_name(index as nat),
{
    proof {
        lemma_decimal_len(index as nat);
        reveal_strlit("0");
        reveal_strlit(".jpg");
    }
    let digits = decimal_string(index);
    let mut r = String::new();
    let pad: u32 = if index < 10 {
        3
    } else if index < 100 {
        2
    } else if index < 1000 {
        1
    } else {
        0
    };
    let mut k: u32 = 0;
    while k < pad
        invariant
            k <= pad,
            r@ == Seq::new(k as nat, |i: int| '0'),
        decreases pad - k,
    {
        r = r.concat("0");
        proof {
            reveal_strlit("0");
        }
        k += 1;
        assert(r@ =~= Seq::new(k as nat, |i: int| '0'));
    }
    let r = r.concat(digits.as_str()).concat(".jpg");
    assert(r@ =~= page_name(index as nat));
    r
}

} // verus!
