//! Small string helpers shared by the notation modules.

use vstd::prelude::*;
use vstd::string::*;

verus! {

/// Appends one character; a wrapper of `String::push`, which the
/// contract says appends `c` to the string's characters.
#[verifier::external_body]
pub(crate) fn push_char(s: &mut String, c: char)
    ensures
        final(s)@ == old(s)@.push(c),
{
    s.push(c)
}

/// The characters of a string slice.
pub fn chars_of(s: &str) -> (v: Vec<char>)
    ensures
        v@ == s@,
{
    let n = s.unicode_len();
    let mut v: Vec<char> = Vec::new();
    let mut i: usize = 0;
    while i < n
        invariant
            n == s@.len(),
            i <= n,
            v@ == s@.take(i as int),
        decreases n - i,
    {
        v.push(s.get_char(i));
        i = i + 1;
        assert(v@ =~= s@.take(i as int));
    }
    assert(s@.take(n as int) =~= s@);
    v
}

/// The string made of the given characters.
pub fn string_of(v: &Vec<char>) -> (s: String)
    ensures
        s@ == v@,
{
    let mut s = String::new();
    let mut i: usize = 0;
    while i < v.len()
        invariant
            i <= v@.len(),
            s@ == v@.take(i as int),
        decreases v@.len() - i,
    {
        push_char(&mut s, v[i]);
        i = i + 1;
        assert(s@ =~= v@.take(i as int));
    }
    assert(v@.take(v@.len() as int) =~= v@);
    s
}

/// The character of a decimal digit.
pub open spec fn digit_char(d: nat) -> char {
    ((d + 48) as u32) as char
}

/// The decimal representation of `n`, without leading zeros.
pub open spec fn decimal(n: nat) -> Seq<char>
    decreases n,
{
    if n < 10 {
        seq![digit_char(n)]
    } else {
        decimal(n / 10).push(digit_char(n % 10))
    }
}

/// Appends the decimal representation of `n`.
pub fn push_decimal(s: &mut String, n: u64)
    ensures
        final(s)@ == old(s)@ + decimal(n as nat),
    decreases n,
{
    if n >= 10 {
        push_decimal(s, n / 10);
    }
    let d: u8 = (n % 10) as u8;
    let ghost before = s@;
    push_char(s, (d + 48) as char);
    proof {
        assert(s@ =~= old(s)@ + decimal(n as nat));
    }
}

/// Unicode White_Space, the characters `char::is_whitespace` accepts.
pub open spec fn is_ws(c: char) -> bool {
    ||| c == ' '
    ||| ('\t' <= c && c <= '\r')
    ||| c == '\u{85}'
    ||| c == '\u{A0}'
    ||| c == '\u{1680}'
    ||| ('\u{2000}' <= c && c <= '\u{200A}')
    ||| c == '\u{2028}'
    ||| c == '\u{2029}'
    ||| c == '\u{202F}'
    ||| c == '\u{205F}'
    ||| c == '\u{3000}'
}

pub fn is_whitespace(c: char) -> (b: bool)
    ensures
        b == is_ws(c),
{
    c == ' ' || ('\t' <= c && c <= '\r') || c == '\u{85}' || c == '\u{A0}' || c == '\u{1680}'
        || ('\u{2000}' <= c && c <= '\u{200A}') || c == '\u{2028}' || c == '\u{2029}' || c
        == '\u{202F}' || c == '\u{205F}' || c == '\u{3000}'
}

/// Splitting at whitespace, scanning from index `i` with the current word
/// `cur` and the finished words `acc`.
pub open spec fn split_go(s: Seq<char>, i: int, cur: Seq<char>, acc: Seq<Seq<char>>) -> Seq<Seq<char>>
    decreases s.len() - i,
{
    if i >= s.len() {
        if cur.len() > 0 {
            acc.push(cur)
        } else {
            acc
        }
    } else if is_ws(s[i]) {
        split_go(s, i + 1, Seq::empty(), if cur.len() > 0 {
            acc.push(cur)
        } else {
            acc
        })
    } else {
        split_go(s, i + 1, cur.push(s[i]), acc)
    }
}

/// The whitespace-separated words of `s`, as `str::split_whitespace` gives them.
pub open spec fn words(s: Seq<char>) -> Seq<Seq<char>> {
    split_go(s, 0, Seq::empty(), Seq::empty())
}

proof fn lemma_split_go_short(s: Seq<char>, i: int, cur: Seq<char>, acc: Seq<Seq<char>>)
    requires
        0 <= i <= s.len(),
        cur.len() <= i,
        forall|k: int| 0 <= k < acc.len() ==> (#[trigger] acc[k]).len() <= s.len(),
    ensures
        forall|k: int| 0 <= k < split_go(s, i, cur, acc).len() ==> (#[trigger] split_go(s, i, cur, acc)[k]).len() <= s.len(),
    decreases s.len() - i,
{
    if i < s.len() {
        if is_ws(s[i]) {
            let acc2 = if cur.len() > 0 {
                acc.push(cur)
            } else {
                acc
            };
            assert forall|k: int| 0 <= k < acc2.len() implies (#[trigger] acc2[k]).len() <= s.len() by {
                if k < acc.len() {
                    assert(acc2[k] == acc[k]);
                }
            }
            lemma_split_go_short(s, i + 1, Seq::empty(), acc2);
            assert(split_go(s, i, cur, acc) == split_go(s, i + 1, Seq::empty(), acc2));
        } else {
            lemma_split_go_short(s, i + 1, cur.push(s[i]), acc);
            assert(split_go(s, i, cur, acc) == split_go(s, i + 1, cur.push(s[i]), acc));
        }
    } else {
        let acc2 = if cur.len() > 0 {
            acc.push(cur)
        } else {
            acc
        };
        assert forall|k: int| 0 <= k < acc2.len() implies (#[trigger] acc2[k]).len() <= s.len() by {
            if k < acc.len() {
                assert(acc2[k] == acc[k]);
            }
        }
        assert(split_go(s, i, cur, acc) == acc2);
    }
}

/// No word is longer than the string it came from.
pub proof fn lemma_words_short(s: Seq<char>)
    ensures
        forall|k: int| 0 <= k < words(s).len() ==> (#[trigger] words(s)[k]).len() <= s.len(),
{
    lemma_split_go_short(s, 0, Seq::empty(), Seq::empty());
}

/// Splits characters into whitespace-separated words.
pub fn split_words(s: &Vec<char>) -> (w: Vec<Vec<char>>)
    ensures
        w@.len() == words(s@).len(),
        forall|k: int| 0 <= k < w@.len() ==> (#[trigger] w@[k])@ == words(s@)[k],
{
    let mut acc: Vec<Vec<char>> = Vec::new();
    let mut cur: Vec<char> = Vec::new();
    let mut i: usize = 0;
    assert(acc@.map_values(|v: Vec<char>| v@) =~= Seq::<Seq<char>>::empty());
    assert(cur@ =~= Seq::<char>::empty());
    while i < s.len()
        invariant
            i <= s@.len(),
            split_go(s@, i as int, cur@, acc@.map_values(|v: Vec<char>| v@)) == words(s@),
        decreases s@.len() - i,
    {
        let c = s[i];
        if is_whitespace(c) {
            if cur.len() > 0 {
                let ghost old_acc = acc@;
                acc.push(cur);
                assert(acc@.map_values(|v: Vec<char>| v@) =~= old_acc.map_values(|v: Vec<char>| v@).push(cur@));
            }
            cur = Vec::new();
        } else {
            cur.push(c);
        }
        i = i + 1;
    }
    if cur.len() > 0 {
        let ghost old_acc = acc@;
        acc.push(cur);
        assert(acc@.map_values(|v: Vec<char>| v@) =~= old_acc.map_values(|v: Vec<char>| v@).push(cur@));
    }
    acc
}

} // verus!
