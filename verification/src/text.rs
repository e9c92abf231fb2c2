//! Text that commands carry: the list of valid panes, and what the terminal
//! multiplexer answers when it is asked for a pane's window.

use vstd::prelude::*;
use vstd::string::{StrSliceExecFns, StringExecFns};

verus! {

/// The texts that a sequence of strings stands for.
pub open spec fn texts(names: Seq<String>) -> Seq<Seq<char>> {
    names.map_values(|s: String| s@)
}

/// Whether a character is white space, as Unicode defines it.
pub open spec fn white_space(c: char) -> bool {
    let code = c as u32;
    ||| 0x09 <= code <= 0x0d
    ||| code == 0x20
    ||| code == 0x85
    ||| code == 0xa0
    ||| code == 0x1680
    ||| 0x2000 <= code <= 0x200a
    ||| code == 0x2028
    ||| code == 0x2029
    ||| code == 0x202f
    ||| code == 0x205f
    ||| code == 0x3000
}

/// The text without the white space at its two ends.
pub open spec fn trimmed(s: Seq<char>) -> Seq<char>
    decreases s.len(),
{
    if s.len() > 0 && white_space(s.first()) {
        trimmed(s.drop_first())
    } else if s.len() > 0 && white_space(s.last()) {
        trimmed(s.drop_last())
    } else {
        s
    }
}

/// The parts of a text between its commas: one more than it has commas.
pub open spec fn fields(s: Seq<char>) -> Seq<Seq<char>>
    decreases s.len(),
{
    if s.len() == 0 {
        seq![Seq::<char>::empty()]
    } else {
        let before = fields(s.drop_last());
        if s.last() == ',' {
            before.push(Seq::<char>::empty())
        } else {
            before.drop_last().push(before.last().push(s.last()))
        }
    }
}

/// The texts that are not empty.
pub open spec fn not_empty() -> spec_fn(Seq<char>) -> bool {
    |s: Seq<char>| s.len() > 0
}

/// Each text without the white space at its ends.
pub open spec fn all_trimmed(parts: Seq<Seq<char>>) -> Seq<Seq<char>> {
    parts.map_values(|s: Seq<char>| trimmed(s))
}

/// The panes that a list names: its parts between commas, without the white
/// space around them, but for the parts that hold nothing else.
pub open spec fn valid_panes_of(list: Seq<char>) -> Seq<Seq<char>> {
    all_trimmed(fields(list)).filter(not_empty())
}

/// The window that an answer of the multiplexer names: its text without the
/// white space around it. No answer, or an answer of white space alone, names
/// none.
pub open spec fn window_of(answer: Option<Seq<char>>) -> Option<Seq<char>> {
    match answer {
        Some(text) => if trimmed(text).len() > 0 {
            Some(trimmed(text))
        } else {
            None
        },
        None => None,
    }
}

/// The answers as mathematical values.
pub open spec fn answer_texts(answers: Seq<Option<String>>) -> Seq<Option<Seq<char>>> {
    answers.map_values(
        |a: Option<String>|
            match a {
                Some(s) => Some(s@),
                None => None,
            },
    )
}

/// The windows that the answers name.
pub open spec fn windows_of(answers: Seq<Option<Seq<char>>>) -> Set<Seq<char>> {
    Set::new(
        |w: Seq<char>|
            exists|i: int| 0 <= i < answers.len() && window_of(#[trigger] answers[i]) == Some(w),
    )
}

/// Whether a character is white space.
pub fn is_white_space(c: char) -> (b: bool)
    ensures
        b == white_space(c),
{
    let code: u32 = c as u32;
    (0x09 <= code && code <= 0x0d) || code == 0x20 || code == 0x85 || code == 0xa0 || code == 0x1680
        || (0x2000 <= code && code <= 0x200a) || code == 0x2028 || code == 0x2029 || code == 0x202f
        || code == 0x205f || code == 0x3000
}

/// The characters of a text, one by one.
fn chars_of(s: &str) -> (out: Vec<char>)
    ensures
        out@ == s@,
{
    let mut out: Vec<char> = Vec::new();
    for c in it: s.chars()
        invariant
            out@ == it.seq().take(it.index() as int),
            it.seq() == s@,
    {
        out.push(c);
    }
    out
}

/// The text without the white space at its two ends.
pub fn trim(s: &str) -> (out: String)
    ensures
        out@ == trimmed(s@),
{
    let chars = chars_of(s);
    let n = chars.len();
    let mut a: usize = 0;
    assert(chars@.subrange(0, n as int) =~= chars@);
    while a < n && is_white_space(chars[a])
        invariant
            a <= n == chars.len(),
            trimmed(chars@) == trimmed(chars@.subrange(a as int, n as int)),
        decreases n - a,
    {
        assert(chars@.subrange(a as int, n as int).drop_first() =~= chars@.subrange(
            a + 1,
            n as int,
        ));
        a += 1;
    }
    let mut b: usize = n;
    while b > a && is_white_space(chars[b - 1])
        invariant
            a <= b <= n == chars.len(),
            a < n ==> !white_space(chars[a as int]),
            trimmed(chars@) == trimmed(chars@.subrange(a as int, b as int)),
        decreases b - a,
    {
        assert(chars@.subrange(a as int, b as int).drop_last() =~= chars@.subrange(
            a as int,
            b - 1,
        ));
        b -= 1;
    }
    String::from_str(s.substring_char(a, b))
}

/// The parts of a text between its commas.
pub fn split_commas(s: &str) -> (parts: Vec<String>)
    ensures
        texts(parts@) == fields(s@),
{
    let chars = chars_of(s);
    let n = chars.len();
    let mut parts: Vec<String> = Vec::new();
    let mut start: usize = 0;
    let mut j: usize = 0;
    assert(fields(chars@.take(0)) =~= texts(parts@).push(chars@.subrange(0, 0))) by {
        assert(chars@.take(0).len() == 0);
        assert(chars@.subrange(0, 0) =~= Seq::<char>::empty());
        assert(texts(parts@) =~= Seq::<Seq<char>>::empty());
    }
    while j < n
        invariant
            start <= j <= n == chars.len(),
            chars@ == s@,
            fields(chars@.take(j as int)) == texts(parts@).push(
                chars@.subrange(start as int, j as int),
            ),
        decreases n - j,
    {
        let ghost done = texts(parts@);
        let ghost part = chars@.subrange(start as int, j as int);
        assert(chars@.take(j + 1).drop_last() =~= chars@.take(j as int));
        assert(done.push(part).drop_last() =~= done);
        if chars[j] == ',' {
            parts.push(String::from_str(s.substring_char(start, j)));
            start = j + 1;
            assert(texts(parts@) =~= done.push(part));
            assert(chars@.subrange(start as int, j + 1) =~= Seq::<char>::empty());
        } else {
            assert(chars@.subrange(start as int, j + 1) =~= part.push(chars[j as int]));
        }
        j += 1;
    }
    let ghost done = texts(parts@);
    parts.push(String::from_str(s.substring_char(start, n)));
    assert(texts(parts@) =~= done.push(chars@.subrange(start as int, n as int)));
    assert(chars@.take(n as int) =~= chars@);
    parts
}

/// The panes that a list names, in its order: `"%1, %2,,%3"` names `%1`, `%2`
/// and `%3`.
pub fn parse_valid_panes(list: &str) -> (panes: Vec<String>)
    ensures
        texts(panes@) == valid_panes_of(list@),
{
    let parts = split_commas(list);
    let ghost all = all_trimmed(fields(list@));
    let mut panes: Vec<String> = Vec::new();
    let mut i: usize = 0;
    assert(all.take(0).filter(not_empty()) =~= Seq::<Seq<char>>::empty()) by {
        reveal(Seq::filter);
    }
    while i < parts.len()
        invariant
            i <= parts.len(),
            texts(parts@) == fields(list@),
            all == all_trimmed(fields(list@)),
            texts(panes@) =~= all.take(i as int).filter(not_empty()),
        decreases parts.len() - i,
    {
        let pane = trim(parts[i].as_str());
        proof {
            assert(texts(parts@)[i as int] == parts[i as int]@);
            assert(all[i as int] == pane@);
            assert(all.take(i + 1) =~= all.take(i as int).push(all[i as int]));
            all.take(i as int).lemma_filter_push(all[i as int], not_empty());
        }
        if !pane.as_str().is_empty() {
            panes.push(pane);
        }
        i += 1;
    }
    assert(all.take(i as int) =~= all);
    panes
}

/// Whether `text` is among `names`.
pub fn is_among(names: &[String], text: &String) -> (found: bool)
    ensures
        found == texts(names@).contains(text@),
{
    let mut i: usize = 0;
    while i < names.len()
        invariant
            i <= names.len(),
            forall|k: int| 0 <= k < i ==> texts(names@)[k] != text@,
        decreases names.len() - i,
    {
        if names[i].eq(text) {
            assert(texts(names@)[i as int] == text@);
            return true;
        }
        i += 1;
    }
    false
}

/// How many windows hold a pane that was asked about: the number of different
/// windows that the answers name. A pane without an answer, or with an answer
/// of white space alone, counts for none.
pub fn count_windows(answers: &Vec<Option<String>>) -> (count: usize)
    ensures
        count == windows_of(answer_texts(answers@)).len(),
{
    let ghost all = answer_texts(answers@);
    let mut seen: Vec<String> = Vec::new();
    let mut i: usize = 0;
    assert(texts(seen@).to_set() =~= windows_of(all.take(0)));
    while i < answers.len()
        invariant
            i <= answers.len(),
            all == answer_texts(answers@),
            texts(seen@).no_duplicates(),
            texts(seen@).to_set() =~= windows_of(all.take(i as int)),
        decreases answers.len() - i,
    {
        let ghost before = texts(seen@);
        let ghost old_windows = windows_of(all.take(i as int));
        proof {
            assert(all.take(i + 1) =~= all.take(i as int).push(all[i as int]));
            assert(forall|k: int| 0 <= k < i ==> all.take(i + 1)[k] == all.take(i as int)[k]);
        }
        let mut added = false;
        match &answers[i] {
            Some(text) => {
                let window = trim(text.as_str());
                if !window.as_str().is_empty() && !is_among(seen.as_slice(), &window) {
                    seen.push(window);
                    added = true;
                }
            },
            None => {},
        }
        proof {
            let now = windows_of(all.take(i + 1));
            let named = window_of(all[i as int]);
            assert forall|w: Seq<char>| now.contains(w) <==> (old_windows.contains(w) || named
                == Some(w)) by {
                if now.contains(w) {
                    let k = choose|k: int|
                        0 <= k < all.take(i + 1).len() && window_of(#[trigger] all.take(i + 1)[k])
                            == Some(w);
                    if k < i {
                        assert(window_of(all.take(i as int)[k]) == Some(w));
                    }
                }
                if old_windows.contains(w) {
                    let k = choose|k: int|
                        0 <= k < all.take(i as int).len() && window_of(
                            #[trigger] all.take(i as int)[k],
                        ) == Some(w);
                    assert(window_of(all.take(i + 1)[k]) == Some(w));
                }
                if named == Some(w) {
                    assert(window_of(all.take(i + 1)[i as int]) == Some(w));
                }
            }
            if added {
                let w = named->0;
                assert(texts(seen@) =~= before.push(w));
                assert(!before.contains(w));
                before.lemma_push_to_set_commute(w);
            } else {
                assert(texts(seen@) =~= before);
                if named is Some {
                    assert(before.contains(named->0));
                    assert(before.to_set().contains(named->0));
                }
            }
            assert(texts(seen@).to_set() =~= now);
        }
        i += 1;
    }
    proof {
        assert(all.take(i as int) =~= all);
        texts(seen@).unique_seq_to_set();
    }
    seen.len()
}

} // verus!
