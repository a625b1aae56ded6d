//! Text helpers shared by the adapters: characters in and out of strings,
//! prefixes, joining and splitting.

use vstd::prelude::*;

verus! {

/// `String::push` appends the character to the end of the string.
pub assume_specification[ String::push ](s: &mut String, ch: char)
    ensures
        final(s)@ == old(s)@.push(ch),
;

/// The characters of `s`, in order.
pub fn to_chars(s: &str) -> (chars: Vec<char>)
    ensures
        chars@ == s@,
{
    broadcast use vstd::string::axiom_spec_iter;

    let mut chars: Vec<char> = Vec::new();
    for c in it: s.chars()
        invariant
            it.seq() == s@,
            chars@ == it.seq().take(it.index() as int),
    {
        chars.push(c);
    }
    chars
}

/// The string made of the characters `chars[from..to]`.
pub fn from_chars(chars: &Vec<char>, from: usize, to: usize) -> (s: String)
    requires
        from <= to <= chars@.len(),
    ensures
        s@ == chars@.subrange(from as int, to as int),
{
    let mut s = String::new();
    let mut i: usize = from;
    while i < to
        invariant
            from <= i <= to <= chars@.len(),
            s@ == chars@.subrange(from as int, i as int),
        decreases to - i,
    {
        s.push(chars[i]);
        i = i + 1;
        assert(s@ =~= chars@.subrange(from as int, i as int));
    }
    s
}

/// Whether `pattern` stands in `text` at position `at`.
pub open spec fn occurs_at(text: Seq<char>, at: int, pattern: Seq<char>) -> bool {
    &&& 0 <= at
    &&& at + pattern.len() <= text.len()
    &&& text.subrange(at, at + pattern.len()) == pattern
}

/// Tests whether `pattern` stands in `text` at position `at`.
pub fn matches_at(text: &Vec<char>, at: usize, pattern: &Vec<char>) -> (found: bool)
    ensures
        found == occurs_at(text@, at as int, pattern@),
{
    if at > text.len() || pattern.len() > text.len() - at {
        return false;
    }
    let mut i: usize = 0;
    while i < pattern.len()
        invariant
            0 <= i <= pattern@.len(),
            at + pattern@.len() <= text@.len() <= usize::MAX,
            text@.subrange(at as int, at + i) == pattern@.take(i as int),
        decreases pattern.len() - i,
    {
        if text[at + i] != pattern[i] {
            proof {
                let whole = text@.subrange(at as int, at + pattern@.len());
                assert(whole[i as int] == text@[at + i]);
            }
            return false;
        }
        i = i + 1;
        assert(text@.subrange(at as int, at + i) =~= pattern@.take(i as int));
    }
    assert(pattern@.take(i as int) =~= pattern@);
    true
}

/// Whether `text` begins with `prefix`.
pub fn starts_with(text: &str, prefix: &str) -> (found: bool)
    ensures
        found == prefix@.is_prefix_of(text@),
{
    let t = to_chars(text);
    let p = to_chars(prefix);
    let found = matches_at(&t, 0, &p);
    proof {
        if found {
            assert(prefix@ =~= text@.subrange(0, prefix@.len() as int));
        }
        if prefix@.is_prefix_of(text@) {
            assert(text@.subrange(0, prefix@.len() as int) =~= prefix@);
        }
    }
    found
}

/// Whether the two texts hold the same characters.
pub fn same_text(a: &str, b: &str) -> (same: bool)
    ensures
        same == (a@ == b@),
{
    let x = to_chars(a);
    let y = to_chars(b);
    if x.len() != y.len() {
        return false;
    }
    let same = matches_at(&x, 0, &y);
    proof {
        assert(x@.subrange(0, x@.len() as int) =~= x@);
    }
    same
}

/// The texts of a list of strings.
pub open spec fn texts(strings: Seq<String>) -> Seq<Seq<char>> {
    Seq::new(strings.len(), |i: int| strings[i]@)
}

/// The parts, with the separator between each two of them.
pub open spec fn joined(parts: Seq<Seq<char>>, separator: Seq<char>) -> Seq<char>
    decreases parts.len(),
{
    if parts.len() == 0 {
        Seq::empty()
    } else if parts.len() == 1 {
        parts[0]
    } else {
        joined(parts.drop_last(), separator) + separator + parts.last()
    }
}

/// Joins the parts with the separator between each two of them.
pub fn join(parts: &Vec<String>, separator: &str) -> (whole: String)
    ensures
        whole@ == joined(texts(parts@), separator@),
{
    let mut whole = String::new();
    let mut i: usize = 0;
    proof {
        assert(texts(parts@).take(0) =~= Seq::<Seq<char>>::empty());
    }
    while i < parts.len()
        invariant
            0 <= i <= parts@.len(),
            whole@ == joined(texts(parts@).take(i as int), separator@),
        decreases parts.len() - i,
    {
        proof {
            let longer = texts(parts@).take(i + 1);
            assert(longer.drop_last() =~= texts(parts@).take(i as int));
            assert(longer.last() == parts@[i as int]@);
            if i == 0 {
                assert(whole@ =~= Seq::<char>::empty());
            }
        }
        if i > 0 {
            whole.append(separator);
        }
        whole.append(parts[i].as_str());
        proof {
            if i == 0 {
                assert(whole@ =~= parts@[0]@);
            }
        }
        i = i + 1;
    }
    proof {
        assert(texts(parts@).take(i as int) =~= texts(parts@));
    }
    whole
}

/// The text without any occurrence of the character `c`.
pub open spec fn without(text: Seq<char>, c: char) -> Seq<char> {
    text.filter(|x: char| x != c)
}

/// Removes every occurrence of the character `c`.
pub fn remove_char(text: &str, c: char) -> (rest: String)
    ensures
        rest@ == without(text@, c),
{
    let chars = to_chars(text);
    let mut rest = String::new();
    let mut i: usize = 0;
    proof {
        assert(chars@.take(0) =~= Seq::<char>::empty());
    }
    while i < chars.len()
        invariant
            0 <= i <= chars@.len(),
            rest@ == without(chars@.take(i as int), c),
        decreases chars.len() - i,
    {
        proof {
            assert(chars@.take(i + 1).drop_last() =~= chars@.take(i as int));
            assert(chars@.take(i + 1).last() == chars@[i as int]);
            reveal_with_fuel(Seq::filter, 2);
        }
        if chars[i] != c {
            rest.push(chars[i]);
        }
        i = i + 1;
    }
    proof {
        assert(chars@.take(i as int) =~= chars@);
    }
    rest
}

/// The pieces of a text between the occurrences of a separator character:
/// one more than there are separators, empty ones included.
pub open spec fn pieces(text: Seq<char>, separator: char) -> Seq<Seq<char>>
    decreases text.len(),
{
    if text.len() == 0 {
        seq![Seq::<char>::empty()]
    } else {
        let before = pieces(text.drop_last(), separator);
        if text.last() == separator {
            before.push(Seq::<char>::empty())
        } else {
            before.drop_last().push(before.last().push(text.last()))
        }
    }
}

/// Splits a text at every occurrence of a separator character.
pub fn split(text: &str, separator: char) -> (parts: Vec<String>)
    ensures
        texts(parts@) == pieces(text@, separator),
{
    let chars = to_chars(text);
    let mut parts: Vec<String> = Vec::new();
    let mut current = String::new();
    let mut i: usize = 0;
    proof {
        assert(chars@.take(0) =~= Seq::<char>::empty());
        assert(texts(parts@).push(current@) =~= pieces(chars@.take(0), separator));
    }
    while i < chars.len()
        invariant
            0 <= i <= chars@.len(),
            texts(parts@).push(current@) == pieces(chars@.take(i as int), separator),
        decreases chars.len() - i,
    {
        let ghost before = pieces(chars@.take(i as int), separator);
        let ghost done = texts(parts@);
        let ghost word = current@;
        proof {
            assert(chars@.take(i + 1).drop_last() =~= chars@.take(i as int));
            assert(chars@.take(i + 1).last() == chars@[i as int]);
            assert(before.last() == word);
            assert(before.drop_last() =~= done);
        }
        if chars[i] == separator {
            parts.push(current);
            current = String::new();
            proof {
                assert(texts(parts@) =~= before);
            }
        } else {
            current.push(chars[i]);
        }
        i = i + 1;
    }
    proof {
        assert(chars@.take(i as int) =~= chars@);
    }
    let ghost done = texts(parts@);
    parts.push(current);
    proof {
        assert(texts(parts@) =~= done.push(parts@.last()@));
    }
    parts
}

/// Whether `pattern` stands anywhere in `text`.
pub open spec fn occurs_in(text: Seq<char>, pattern: Seq<char>) -> bool {
    exists|at: int| occurs_at(text, at, pattern)
}

/// Whether `text` contains `pattern`.
pub fn contains(text: &str, pattern: &str) -> (found: bool)
    ensures
        found == occurs_in(text@, pattern@),
{
    let t = to_chars(text);
    let p = to_chars(pattern);
    let mut at: usize = 0;
    loop
        invariant
            0 <= at <= t@.len(),
            t@ == text@,
            p@ == pattern@,
            forall|k: int| 0 <= k < at ==> !occurs_at(t@, k, p@),
        decreases t@.len() - at,
    {
        if matches_at(&t, at, &p) {
            return true;
        }
        if at >= t.len() {
            assert forall|k: int| !occurs_at(t@, k, p@) by {
                if 0 <= k && k + p@.len() <= t@.len() {
                    assert(k <= at);
                }
            }
            return false;
        }
        at = at + 1;
    }
}

/// The text left when `pattern` is taken off the front of `text` as often
/// as it stands there.
pub open spec fn trimmed_start(text: Seq<char>, pattern: Seq<char>) -> Seq<char>
    decreases text.len(),
{
    if pattern.len() > 0 && occurs_at(text, 0, pattern) {
        trimmed_start(text.skip(pattern.len() as int), pattern)
    } else {
        text
    }
}

/// The position in `text`, at or after `from`, behind all the repetitions of
/// `pattern` that stand at `from`.
pub fn skip_repeats(text: &Vec<char>, from: usize, pattern: &Vec<char>) -> (to: usize)
    requires
        from <= text@.len(),
    ensures
        from <= to <= text@.len(),
        text@.skip(to as int) == trimmed_start(text@.skip(from as int), pattern@),
{
    let mut to: usize = from;
    let length: usize = text.len();
    if pattern.len() == 0 {
        return to;
    }
    while matches_at(text, to, pattern)
        invariant
            from <= to <= text@.len() == length,
            pattern@.len() > 0,
            trimmed_start(text@.skip(to as int), pattern@) == trimmed_start(
                text@.skip(from as int),
                pattern@,
            ),
        decreases text@.len() - to,
    {
        proof {
            let rest = text@.skip(to as int);
            assert(rest.subrange(0, pattern@.len() as int) =~= text@.subrange(
                to as int,
                to + pattern@.len(),
            ));
            assert(occurs_at(rest, 0, pattern@));
            assert(rest.skip(pattern@.len() as int) =~= text@.skip(to + pattern@.len()));
        }
        to = to + pattern.len();
    }
    proof {
        let rest = text@.skip(to as int);
        if occurs_at(rest, 0, pattern@) {
            assert(rest.subrange(0, pattern@.len() as int) =~= text@.subrange(
                to as int,
                to + pattern@.len(),
            ));
            assert(occurs_at(text@, to as int, pattern@));
        }
    }
    to
}

/// The text left when `pattern` is taken off the end of `text` as often as
/// it stands there.
pub open spec fn trimmed_end(text: Seq<char>, pattern: Seq<char>) -> Seq<char>
    decreases text.len(),
{
    if pattern.len() > 0 && occurs_at(text, text.len() - pattern.len(), pattern) {
        trimmed_end(text.take(text.len() - pattern.len()), pattern)
    } else {
        text
    }
}

/// Takes `pattern` off the end of `text` as often as it stands there.
pub fn trim_end(text: &str, pattern: &str) -> (rest: String)
    ensures
        rest@ == trimmed_end(text@, pattern@),
{
    let chars = to_chars(text);
    let p = to_chars(pattern);
    let mut end: usize = chars.len();
    proof {
        assert(chars@.take(end as int) =~= chars@);
    }
    if p.len() > 0 {
        while end >= p.len() && matches_at(&chars, end - p.len(), &p)
            invariant
                0 <= end <= chars@.len(),
                p@.len() > 0,
                trimmed_end(chars@.take(end as int), p@) == trimmed_end(chars@, p@),
            decreases end,
        {
            proof {
                let head = chars@.take(end as int);
                assert(head.subrange(end - p@.len(), end as int) =~= chars@.subrange(
                    end - p@.len(),
                    end as int,
                ));
                assert(occurs_at(head, head.len() - p@.len(), p@));
                assert(head.take(head.len() - p@.len()) =~= chars@.take(end - p@.len()));
            }
            end = end - p.len();
        }
        proof {
            let head = chars@.take(end as int);
            if occurs_at(head, head.len() - p@.len(), p@) {
                assert(head.subrange(end - p@.len(), end as int) =~= chars@.subrange(
                    end - p@.len(),
                    end as int,
                ));
                assert(occurs_at(chars@, end - p@.len(), p@));
            }
        }
    }
    proof {
        assert(chars@.take(end as int) =~= chars@.subrange(0, end as int));
    }
    from_chars(&chars, 0, end)
}

} // verus!
