//! Reading a line of text as a list of unsigned 64-bit integers separated by
//! white space: the raw edge data that a surrounding program feeds a graph.
use vstd::prelude::*;

verus! {

/// Characters with the Unicode `White_Space` property.
pub open spec fn is_space(c: char) -> bool {
    let u = c as u32;
    (0x9 <= u <= 0xd) || u == 0x20 || u == 0x85 || u == 0xa0 || u == 0x1680 || (0x2000 <= u
        <= 0x200a) || u == 0x2028 || u == 0x2029 || u == 0x202f || u == 0x205f || u == 0x3000
}

/// The maximal runs of non-space characters of `s`, in order.
pub open spec fn words(s: Seq<char>) -> Seq<Seq<char>>
    decreases s.len(),
{
    if s.len() == 0 {
        Seq::empty()
    } else {
        let p = s.drop_last();
        let c = s.last();
        let w = words(p);
        if is_space(c) {
            w
        } else if p.len() == 0 || is_space(p.last()) {
            w.push(seq![c])
        } else {
            w.update(w.len() - 1, w.last().push(c))
        }
    }
}

pub open spec fn is_digit(c: char) -> bool {
    '0' <= c <= '9'
}

/// The number that the decimal digits `d` spell.
pub open spec fn decimal_value(d: Seq<char>) -> nat
    decreases d.len(),
{
    if d.len() == 0 {
        0
    } else {
        decimal_value(d.drop_last()) * 10 + (d.last() as u32 - '0' as u32) as nat
    }
}

/// `s` without one leading `+`.
pub open spec fn unsigned_text(s: Seq<char>) -> Seq<char> {
    if s.len() > 0 && s[0] == '+' {
        s.drop_first()
    } else {
        s
    }
}

/// The value of `s` read as a decimal `u64`: an optional `+`, then one or
/// more digits, whose value fits.
pub open spec fn u64_of(s: Seq<char>) -> Option<u64> {
    let d = unsigned_text(s);
    if d.len() > 0 && (forall|k: int| 0 <= k < d.len() ==> is_digit(#[trigger] d[k]))
        && decimal_value(d) <= u64::MAX {
        Some(decimal_value(d) as u64)
    } else {
        None
    }
}

/// The values of all `items`, or `None` where one of them is no `u64`.
pub open spec fn u64s_of(items: Seq<Seq<char>>) -> Option<Seq<u64>> {
    if forall|k: int| 0 <= k < items.len() ==> (#[trigger] u64_of(items[k])) is Some {
        Some(items.map_values(|t: Seq<char>| u64_of(t)->Some_0))
    } else {
        None
    }
}

fn is_space_char(c: char) -> (r: bool)
    ensures
        r == is_space(c),
{
    let u = c as u32;
    (0x9 <= u && u <= 0xd) || u == 0x20 || u == 0x85 || u == 0xa0 || u == 0x1680 || (0x2000 <= u
        && u <= 0x200a) || u == 0x2028 || u == 0x2029 || u == 0x202f || u == 0x205f || u == 0x3000
}

/// Splits `string` into its words: the maximal runs of characters that are
/// not white space.
pub fn splitline(string: String) -> (r: Vec<String>)
    ensures
        r.deep_view() == words(string@),
{
    let s = string.as_str();
    let n = s.unicode_len();
    let mut tokens: Vec<String> = Vec::new();
    let mut in_word = false;
    let mut start: usize = 0;
    let mut i: usize = 0;
    while i < n
        invariant
            s@ == string@,
            n as nat == s@.len(),
            i <= n,
            in_word == (i > 0 && !is_space(s@[i - 1])),
            in_word ==> start < i && words(s@.subrange(0, i as int)) == tokens.deep_view().push(
                s@.subrange(start as int, i as int),
            ),
            !in_word ==> words(s@.subrange(0, i as int)) == tokens.deep_view(),
        decreases n - i,
    {
        let c = s.get_char(i);
        let ghost p = s@.subrange(0, i as int);
        let ghost old_tokens = tokens.deep_view();
        proof {
            assert(s@.subrange(0, i + 1).drop_last() =~= p);
            assert(s@.subrange(0, i + 1).last() == c);
            if i > 0 {
                assert(p.last() == s@[i - 1]);
            }
        }
        if is_space_char(c) {
            if in_word {
                let w = s.substring_char(start, i).to_owned();
                tokens.push(w);
                proof {
                    assert(tokens.deep_view() =~= old_tokens.push(s@.subrange(start as int, i as int)));
                }
            }
            in_word = false;
        } else {
            if !in_word {
                start = i;
                proof {
                    assert(s@.subrange(i as int, i + 1) =~= seq![c]);
                }
            } else {
                proof {
                    assert(s@.subrange(start as int, i + 1) =~= s@.subrange(start as int, i as int).push(c));
                }
            }
            in_word = true;
        }
        i = i + 1;
    }
    if in_word {
        let w = s.substring_char(start, n).to_owned();
        let ghost old_tokens = tokens.deep_view();
        tokens.push(w);
        proof {
            assert(tokens.deep_view() =~= old_tokens.push(s@.subrange(start as int, n as int)));
        }
    }
    proof {
        assert(s@.subrange(0, n as int) =~= s@);
    }
    tokens
}

/// Over digits, a longer prefix never spells a smaller number.
proof fn lemma_decimal_prefix(d: Seq<char>, j: int)
    requires
        0 <= j <= d.len(),
        forall|k: int| 0 <= k < d.len() ==> is_digit(#[trigger] d[k]),
    ensures
        decimal_value(d.subrange(0, j)) <= decimal_value(d),
    decreases d.len(),
{
    if j < d.len() {
        let p = d.drop_last();
        assert(p.subrange(0, j) =~= d.subrange(0, j));
        assert forall|k: int| 0 <= k < p.len() implies is_digit(#[trigger] p[k]) by {
            assert(p[k] == d[k]);
        }
        lemma_decimal_prefix(p, j);
    } else {
        assert(d.subrange(0, j) =~= d);
    }
}

/// Reads `s` as a decimal `u64`: an optional `+`, then one or more digits
/// whose value fits.
pub fn parse_u64(s: &str) -> (r: Option<u64>)
    ensures
        r == u64_of(s@),
{
    let n = s.unicode_len();
    let mut i: usize = 0;
    if n > 0 && s.get_char(0) == '+' {
        i = 1;
    }
    let first = i;
    let ghost d = unsigned_text(s@);
    proof {
        if first == 1 {
            assert(d =~= s@.subrange(1, n as int));
        } else {
            assert(d =~= s@.subrange(0, n as int));
        }
    }
    if i == n {
        return None;
    }
    let mut acc: u64 = 0;
    proof {
        assert(d.subrange(0, 0) =~= Seq::<char>::empty());
    }
    while i < n
        invariant
            n as nat == s@.len(),
            first <= i <= n,
            first < n,
            d == s@.subrange(first as int, n as int),
            d == unsigned_text(s@),
            forall|k: int| 0 <= k < i - first ==> is_digit(#[trigger] d[k]),
            acc as nat == decimal_value(d.subrange(0, i - first)),
        decreases n - i,
    {
        let c = s.get_char(i);
        let ghost k = i - first;
        assert(d[k] == c);
        if c < '0' || c > '9' {
            assert(!is_digit(d[k]));
            return None;
        }
        let v = (c as u32 - '0' as u32) as u64;
        proof {
            assert(d.subrange(0, k + 1).drop_last() =~= d.subrange(0, k));
            assert(d.subrange(0, k + 1).last() == c);
        }
        let next = match acc.checked_mul(10) {
            Some(m) => m.checked_add(v),
            None => None,
        };
        match next {
            Some(x) => {
                acc = x;
            },
            None => {
                proof {
                    if forall|j: int| 0 <= j < d.len() ==> is_digit(#[trigger] d[j]) {
                        lemma_decimal_prefix(d, k + 1);
                    }
                }
                return None;
            },
        }
        i = i + 1;
    }
    proof {
        assert(d.subrange(0, d.len() as int) =~= d);
    }
    Some(acc)
}

/// Reads each of `vetor` as a decimal `u64`; `None` where one of them is
/// not one.
pub fn convert_vector_string_to_u64(vetor: Vec<String>) -> (r: Option<Vec<u64>>)
    ensures
        match r {
            Some(v) => u64s_of(vetor.deep_view()) == Some(v@),
            None => u64s_of(vetor.deep_view()) is None,
        },
{
    let mut out: Vec<u64> = Vec::new();
    let mut k: usize = 0;
    while k < vetor.len()
        invariant
            k <= vetor@.len(),
            out@.len() == k,
            forall|j: int| 0 <= j < k ==> u64_of(vetor.deep_view()[j]) == Some(#[trigger] out@[j]),
        decreases vetor@.len() - k,
    {
        match parse_u64(vetor[k].as_str()) {
            Some(x) => out.push(x),
            None => {
                assert(u64_of(vetor.deep_view()[k as int]) is None);
                return None;
            },
        }
        k = k + 1;
    }
    proof {
        let items = vetor.deep_view();
        assert forall|j: int| 0 <= j < items.len() implies (#[trigger] u64_of(items[j])) is Some by {
            assert(u64_of(items[j]) == Some(out@[j]));
        }
        assert(items.map_values(|t: Seq<char>| u64_of(t)->Some_0) =~= out@);
    }
    Some(out)
}

/// Reads the words of `line` as decimal `u64` values; `None` where one of
/// them is not one.
pub fn inputline_vector_u64(line: String) -> (r: Option<Vec<u64>>)
    ensures
        match r {
            Some(v) => u64s_of(words(line@)) == Some(v@),
            None => u64s_of(words(line@)) is None,
        },
{
    convert_vector_string_to_u64(splitline(line))
}

} // verus!
