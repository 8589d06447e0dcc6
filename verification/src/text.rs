//! Text as sequences of characters: splitting, trimming, and comparing.

use vstd::prelude::*;

verus! {

broadcast use vstd::string::axiom_spec_iter;

/// The characters of `text`, in order.
pub fn chars_of(text: &str) -> (chars: Vec<char>)
    ensures
        chars@ == text@,
{
    let mut chars: Vec<char> = Vec::new();
    for c in it: text.chars()
        invariant
            chars@ == it.seq().take(it.index()),
            it.seq() == text@,
    {
        chars.push(c);
        proof {
            assert(chars@ =~= it.seq().take(it.index() + 1));
        }
    }
    proof {
        assert(chars@ =~= text@);
    }
    chars
}

/// Appends `c` to `text`.
///
/// Calls `String::push`, which std documents as appending the character to
/// the end of the string.
#[verifier::external_body]
pub(crate) fn push_char(text: &mut String, c: char)
    ensures
        final(text)@ == old(text)@.push(c),
{
    text.push(c);
}

/// The text made of `chars`, in order.
pub fn text_of(chars: &Vec<char>) -> (text: String)
    ensures
        text@ == chars@,
{
    let mut text = String::new();
    let mut i: usize = 0;
    while i < chars.len()
        invariant
            i <= chars.len(),
            text@ == chars@.take(i as int),
        decreases chars.len() - i,
    {
        push_char(&mut text, chars[i]);
        i = i + 1;
        proof {
            assert(text@ =~= chars@.take(i as int));
        }
    }
    proof {
        assert(chars@.take(chars@.len() as int) =~= chars@);
    }
    text
}

/// Whether two character sequences are the same.
pub fn same_chars(a: &Vec<char>, b: &Vec<char>) -> (same: bool)
    ensures
        same == (a@ == b@),
{
    if a.len() != b.len() {
        return false;
    }
    let mut i: usize = 0;
    while i < a.len()
        invariant
            i <= a.len(),
            a.len() == b.len(),
            forall|j: int| 0 <= j < i ==> a@[j] == b@[j],
        decreases a.len() - i,
    {
        if a[i] != b[i] {
            return false;
        }
        i = i + 1;
    }
    proof {
        assert(a@ =~= b@);
    }
    true
}

/// Whether `text` reads `word`.
pub fn reads_as(text: &Vec<char>, word: &str) -> (same: bool)
    ensures
        same == (text@ == word@),
{
    let word_chars = chars_of(word);
    same_chars(text, &word_chars)
}

/// The characters Rust counts as white space: those with the Unicode
/// `White_Space` property.
pub open spec fn is_space(c: char) -> bool {
    let u = c as u32;
    ||| 0x09 <= u <= 0x0D
    ||| u == 0x20
    ||| u == 0x85
    ||| u == 0xA0
    ||| u == 0x1680
    ||| 0x2000 <= u <= 0x200A
    ||| u == 0x2028
    ||| u == 0x2029
    ||| u == 0x202F
    ||| u == 0x205F
    ||| u == 0x3000
}

/// Whether `c` is white space, as `char::is_whitespace` answers.
pub fn space(c: char) -> (white: bool)
    ensures
        white == is_space(c),
{
    let u = c as u32;
    (0x09 <= u && u <= 0x0D) || u == 0x20 || u == 0x85 || u == 0xA0 || u == 0x1680 || (0x2000
        <= u && u <= 0x200A) || u == 0x2028 || u == 0x2029 || u == 0x202F || u == 0x205F || u
        == 0x3000
}

/// `s` without the white space at its start.
pub open spec fn trim_start(s: Seq<char>) -> Seq<char>
    decreases s.len(),
{
    if s.len() > 0 && is_space(s[0]) {
        trim_start(s.drop_first())
    } else {
        s
    }
}

/// `s` without the white space at its end.
pub open spec fn trim_end(s: Seq<char>) -> Seq<char>
    decreases s.len(),
{
    if s.len() > 0 && is_space(s.last()) {
        trim_end(s.drop_last())
    } else {
        s
    }
}

/// `s` without the white space around it, as `str::trim` leaves it.
pub open spec fn trim(s: Seq<char>) -> Seq<char> {
    trim_end(trim_start(s))
}

/// `chars` without the white space around it.
pub fn trimmed(chars: &Vec<char>) -> (inner: Vec<char>)
    ensures
        inner@ == trim(chars@),
{
    let n = chars.len();
    let mut start: usize = 0;
    proof {
        assert(chars@.subrange(0, n as int) =~= chars@);
    }
    while start < n && space(chars[start])
        invariant
            start <= n,
            n == chars@.len(),
            trim_start(chars@) == trim_start(chars@.subrange(start as int, n as int)),
        decreases n - start,
    {
        proof {
            let rest = chars@.subrange(start as int, n as int);
            assert(rest.drop_first() =~= chars@.subrange(start + 1, n as int));
        }
        start = start + 1;
    }
    proof {
        assert(trim_start(chars@) == chars@.subrange(start as int, n as int));
    }
    let mut end: usize = n;
    while end > start && space(chars[end - 1])
        invariant
            start <= end <= n,
            n == chars@.len(),
            trim(chars@) == trim_end(chars@.subrange(start as int, end as int)),
        decreases end - start,
    {
        proof {
            let rest = chars@.subrange(start as int, end as int);
            assert(rest.drop_last() =~= chars@.subrange(start as int, end - 1));
        }
        end = end - 1;
    }
    let mut inner: Vec<char> = Vec::new();
    let mut i: usize = start;
    while i < end
        invariant
            start <= i <= end,
            end <= chars@.len(),
            inner@ == chars@.subrange(start as int, i as int),
        decreases end - i,
    {
        inner.push(chars[i]);
        i = i + 1;
        proof {
            assert(inner@ =~= chars@.subrange(start as int, i as int));
        }
    }
    inner
}

/// The pieces of `s` between occurrences of `sep`, as `str::split` gives
/// them: one more than there are separators, empty ones included.
#[verifier::opaque]
pub open spec fn split(s: Seq<char>, sep: char) -> Seq<Seq<char>>
    decreases s.len(),
{
    if s.len() == 0 {
        seq![Seq::empty()]
    } else {
        let parts = split(s.drop_last(), sep);
        if s.last() == sep {
            parts.push(Seq::empty())
        } else {
            parts.update(parts.len() - 1, parts.last().push(s.last()))
        }
    }
}

pub proof fn lemma_split_not_empty(s: Seq<char>, sep: char)
    ensures
        split(s, sep).len() >= 1,
    decreases s.len(),
{
    reveal(split);
    if s.len() > 0 {
        lemma_split_not_empty(s.drop_last(), sep);
    }
}

proof fn lemma_chars_deep_view(v: Vec<char>)
    ensures
        v.deep_view() == v@,
{
    assert(v.deep_view() =~= v@);
}

/// Splits `chars` at every `sep`.
pub fn split_at_each(chars: &Vec<char>, sep: char) -> (parts: Vec<Vec<char>>)
    ensures
        parts.deep_view() == split(chars@, sep),
{
    let mut parts: Vec<Vec<char>> = Vec::new();
    let mut current: Vec<char> = Vec::new();
    let mut i: usize = 0;
    proof {
        reveal(split);
        assert(chars@.take(0) =~= Seq::<char>::empty());
        lemma_chars_deep_view(current);
        assert(parts.deep_view().push(current@) =~= split(chars@.take(0), sep));
    }
    while i < chars.len()
        invariant
            i <= chars.len(),
            parts.deep_view().push(current@) == split(chars@.take(i as int), sep),
        decreases chars.len() - i,
    {
        let c = chars[i];
        let ghost before = parts.deep_view();
        proof {
            reveal(split);
            assert(chars@.take(i + 1).drop_last() =~= chars@.take(i as int));
            lemma_split_not_empty(chars@.take(i as int), sep);
        }
        if c == sep {
            let done = current;
            proof {
                lemma_chars_deep_view(done);
            }
            parts.push(done);
            current = Vec::new();
            proof {
                assert(parts.deep_view() =~= before.push(done@));
                assert(parts.deep_view().push(current@) =~= split(chars@.take(i + 1), sep));
            }
        } else {
            let ghost was = current@;
            current.push(c);
            proof {
                assert(parts.deep_view() == before);
                assert(parts.deep_view().push(current@) =~= before.push(was).update(
                    before.len() as int,
                    was.push(c),
                ));
            }
        }
        i = i + 1;
    }
    let ghost before = parts.deep_view();
    let last = current;
    proof {
        lemma_chars_deep_view(last);
    }
    parts.push(last);
    proof {
        assert(chars@.take(chars@.len() as int) =~= chars@);
        assert(parts.deep_view() =~= before.push(last@));
    }
    parts
}

/// Appends `piece` to `text`.
///
/// Calls `String::push_str`, which std documents as appending the given
/// string slice onto the end of the string.
#[verifier::external_body]
pub(crate) fn push_text(text: &mut String, piece: &str)
    ensures
        final(text)@ == old(text)@ + piece@,
{
    text.push_str(piece);
}

/// `s` holds no `c`.
pub open spec fn lacks(s: Seq<char>, c: char) -> bool {
    forall|i: int| 0 <= i < s.len() ==> s[i] != c
}

/// A piece without separators splits into itself.
pub proof fn lemma_split_without_separator(s: Seq<char>, sep: char)
    requires
        lacks(s, sep),
    ensures
        split(s, sep) == seq![s],
    decreases s.len(),
{
    reveal(split);
    if s.len() > 0 {
        lemma_split_without_separator(s.drop_last(), sep);
        assert(s.drop_last().push(s.last()) =~= s);
    } else {
        assert(s =~= Seq::<char>::empty());
    }
}

/// Text without separators, added after `a`, extends the last piece of
/// `a`.
pub proof fn lemma_split_extend(a: Seq<char>, b: Seq<char>, sep: char)
    requires
        lacks(b, sep),
    ensures
        split(a + b, sep).len() == split(a, sep).len(),
        split(a + b, sep) == split(a, sep).update(
            split(a, sep).len() - 1,
            split(a, sep).last() + b,
        ),
    decreases b.len(),
{
    reveal(split);
    lemma_split_not_empty(a, sep);
    if b.len() == 0 {
        assert(a + b =~= a);
        assert(split(a, sep).last() + b =~= split(a, sep).last());
        assert(split(a, sep).update(split(a, sep).len() - 1, split(a, sep).last())
            =~= split(a, sep));
    } else {
        let shorter = b.drop_last();
        lemma_split_extend(a, shorter, sep);
        assert((a + b).drop_last() =~= a + shorter);
        assert((a + b).last() == b.last());
        assert(split(a, sep).last() + shorter + seq![b.last()] =~= split(a, sep).last() + b);
        let before = split(a + shorter, sep);
        assert(before.last() == split(a, sep).last() + shorter);
        assert(before.last().push(b.last()) =~= split(a, sep).last() + b);
        assert(split(a + b, sep) =~= split(a, sep).update(
            split(a, sep).len() - 1,
            split(a, sep).last() + b,
        ));
    }
}

/// A separator followed by text without one starts a new last piece.
pub proof fn lemma_split_separator_then(a: Seq<char>, b: Seq<char>, sep: char)
    requires
        lacks(b, sep),
    ensures
        split(a + seq![sep] + b, sep) == split(a, sep).push(b),
{
    reveal(split);
    let with_sep = a + seq![sep];
    assert(with_sep.drop_last() =~= a);
    assert(split(with_sep, sep) == split(a, sep).push(Seq::empty()));
    lemma_split_extend(with_sep, b, sep);
    assert(Seq::<char>::empty() + b =~= b);
    assert(split(a, sep).push(Seq::empty()).update(split(a, sep).len() as int, b) =~= split(
        a,
        sep,
    ).push(b));
}

/// The pieces put back together, with `sep` between each two.
pub open spec fn joined(parts: Seq<Seq<char>>, sep: char) -> Seq<char>
    decreases parts.len(),
{
    if parts.len() == 0 {
        Seq::empty()
    } else if parts.len() == 1 {
        parts[0]
    } else {
        joined(parts.drop_last(), sep) + seq![sep] + parts.last()
    }
}

/// Splitting loses nothing: the pieces joined again are the text.
pub proof fn lemma_split_joined(s: Seq<char>, sep: char)
    ensures
        joined(split(s, sep), sep) == s,
    decreases s.len(),
{
    reveal(split);
    if s.len() == 0 {
        assert(split(s, sep) =~= seq![Seq::<char>::empty()]);
        assert(s =~= Seq::<char>::empty());
    } else {
        let rest = s.drop_last();
        lemma_split_joined(rest, sep);
        lemma_split_not_empty(rest, sep);
        let parts = split(rest, sep);
        if s.last() == sep {
            let grown = parts.push(Seq::<char>::empty());
            assert(grown.drop_last() =~= parts);
            assert(joined(grown, sep) =~= rest + seq![sep] + Seq::<char>::empty());
            assert(rest + seq![sep] + Seq::<char>::empty() =~= s);
        } else {
            let grown = parts.update(parts.len() - 1, parts.last().push(s.last()));
            if parts.len() == 1 {
                assert(joined(grown, sep) == parts[0].push(s.last()));
                assert(parts[0].push(s.last()) =~= s);
            } else {
                assert(grown.drop_last() =~= parts.drop_last());
                assert(joined(grown, sep) == joined(parts.drop_last(), sep) + seq![sep]
                    + parts.last().push(s.last()));
                assert(joined(parts.drop_last(), sep) + seq![sep] + parts.last().push(s.last())
                    =~= rest.push(s.last()));
                assert(rest.push(s.last()) =~= s);
            }
        }
    }
}

/// `s` starts and ends with something other than white space, or is
/// empty.
pub open spec fn tight(s: Seq<char>) -> bool {
    s.len() > 0 ==> !is_space(s[0]) && !is_space(s.last())
}

/// Trimming removes one space put on either side of tight text.
pub proof fn lemma_trim_padded(s: Seq<char>, before: bool, after: bool)
    requires
        tight(s),
    ensures
        trim(
            (if before {
                seq![' ']
            } else {
                Seq::empty()
            }) + s + (if after {
                seq![' ']
            } else {
                Seq::empty()
            }),
        ) == s,
{
    let pre: Seq<char> = if before {
        seq![' ']
    } else {
        Seq::empty()
    };
    let post: Seq<char> = if after {
        seq![' ']
    } else {
        Seq::empty()
    };
    let whole = pre + s + post;
    assert(is_space(' '));
    let inner = s + post;
    if before {
        assert(whole.drop_first() =~= inner);
    } else {
        assert(whole =~= inner);
    }
    assert(trim_start(whole) == trim_start(inner));
    if s.len() > 0 {
        assert(inner[0] == s[0]);
        assert(trim_start(inner) == inner);
        if after {
            assert(inner.drop_last() =~= s);
            assert(trim_end(inner) == trim_end(s));
        } else {
            assert(inner =~= s);
        }
        assert(trim_end(s) == s);
    } else {
        if after {
            assert(inner =~= seq![' ']);
            assert(inner.drop_first() =~= Seq::<char>::empty());
            assert(trim_start(inner) == trim_start(Seq::<char>::empty()));
        } else {
            assert(inner =~= Seq::<char>::empty());
        }
        assert(trim_start(inner) =~= Seq::<char>::empty());
        assert(s =~= Seq::<char>::empty());
    }
}

/// A tag that actually says something, or nothing at all: a tag of only
/// spaces is the same as a missing one.
pub open spec fn named(tag: Option<Seq<char>>) -> Option<Seq<char>> {
    match tag {
        Some(text) => if trim(text).len() > 0 {
            Some(trim(text))
        } else {
            None
        },
        None => None,
    }
}

pub open spec fn str_view(text: Option<&str>) -> Option<Seq<char>> {
    match text {
        Some(text) => Some(text@),
        None => None,
    }
}

/// The text a tag holds once trimmed, or nothing when nothing is left.
pub fn non_empty(tag: Option<&str>) -> (name: Option<String>)
    ensures
        match name {
            Some(text) => named(str_view(tag)) == Some(text@),
            None => named(str_view(tag)) is None,
        },
{
    match tag {
        Some(text) => {
            let inner = trimmed(&chars_of(text));
            if inner.len() > 0 {
                Some(text_of(&inner))
            } else {
                None
            }
        },
        None => None,
    }
}

/// The text of an optional `String`.
pub open spec fn text_view(text: Option<String>) -> Option<Seq<char>> {
    match text {
        Some(text) => Some(text@),
        None => None,
    }
}

} // verus!
