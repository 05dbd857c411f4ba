//! Small operations on text.

use vstd::prelude::*;
use vstd::string::*;

verus! {

/// The test "is not a double quote".
pub open spec fn not_a_quote() -> spec_fn(char) -> bool {
    |c: char| c != '"'
}

/// A text without its double quotes.
pub open spec fn unquoted(text: Seq<char>) -> Seq<char> {
    text.filter(not_a_quote())
}

/// Calls `String::push`, which appends one character.
#[verifier::external_body]
pub(crate) fn push_char(text: &mut String, c: char)
    ensures
        final(text)@ == old(text)@.push(c),
{
    text.push(c)
}

/// Copies a text, leaving out every double quote.
pub fn without_quotes(text: &str) -> (stripped: String)
    ensures
        stripped@ == unquoted(text@),
{
    let mut stripped = String::new();
    let len: usize = text.unicode_len();
    let mut i: usize = 0;
    proof {
        assert(text@.take(0) =~= Seq::<char>::empty());
        reveal_with_fuel(Seq::filter, 1);
        assert(unquoted(text@.take(0)) =~= Seq::<char>::empty());
    }
    while i < len
        invariant
            i <= len,
            len == text@.len(),
            stripped@ == unquoted(text@.take(i as int)),
        decreases len - i,
    {
        let c = text.get_char(i);
        proof {
            assert(text@.take(i + 1) =~= text@.take(i as int).push(c));
            text@.take(i as int).lemma_filter_push(c, not_a_quote());
        }
        if c != '"' {
            push_char(&mut stripped, c);
        }
        i = i + 1;
    }
    proof {
        assert(text@.take(len as int) =~= text@);
    }
    stripped
}

/// What separates the pieces of a text.
#[derive(Clone, Copy, Debug, PartialEq, Eq, Structural)]
pub enum Separator {
    /// A comma.
    Comma,
    /// An opening bracket.
    Bracket,
    /// An opening bracket, a closing bracket or a colon.
    Field,
}

impl Separator {
    /// Whether `c` separates.
    pub open spec fn holds(self, c: char) -> bool {
        match self {
            Separator::Comma => c == ',',
            Separator::Bracket => c == '[',
            Separator::Field => c == '[' || c == ']' || c == ':',
        }
    }

    /// Whether `c` separates.
    pub fn is(&self, c: char) -> (b: bool)
        ensures
            b == self.holds(c),
    {
        match self {
            Separator::Comma => c == ',',
            Separator::Bracket => c == '[',
            Separator::Field => c == '[' || c == ']' || c == ':',
        }
    }
}

/// The pieces into which the separators cut a text: one more piece than
/// there are separators in it, some of them perhaps empty.
pub open spec fn pieces(text: Seq<char>, separator: Separator) -> Seq<Seq<char>>
    decreases text.len(),
{
    if text.len() == 0 {
        seq![Seq::empty()]
    } else {
        let before = pieces(text.drop_last(), separator);
        if separator.holds(text.last()) {
            before.push(Seq::empty())
        } else {
            before.drop_last().push(before.last().push(text.last()))
        }
    }
}

/// Cuts a text at its separators.
pub fn split(text: &str, separator: Separator) -> (parts: Vec<String>)
    ensures
        texts(parts@) == pieces(text@, separator),
        parts@.len() >= 1,
{
    let mut done: Vec<String> = Vec::new();
    let mut current = String::new();
    let len: usize = text.unicode_len();
    let mut i: usize = 0;
    proof {
        assert(text@.take(0) =~= Seq::<char>::empty());
        assert(texts(done@).push(current@) =~= pieces(text@.take(0), separator));
    }
    while i < len
        invariant
            i <= len,
            len == text@.len(),
            texts(done@).push(current@) == pieces(text@.take(i as int), separator),
        decreases len - i,
    {
        let c = text.get_char(i);
        let ghost before = pieces(text@.take(i as int), separator);
        let ghost finished = done@;
        proof {
            assert(text@.take(i + 1).drop_last() =~= text@.take(i as int));
            assert(text@.take(i + 1).last() == c);
            assert(before.last() == current@);
            assert(before.drop_last() =~= texts(finished));
        }
        if separator.is(c) {
            done.push(current);
            current = String::new();
            proof {
                assert(texts(done@) =~= before);
            }
        } else {
            push_char(&mut current, c);
        }
        i = i + 1;
    }
    proof {
        assert(text@.take(len as int) =~= text@);
    }
    let ghost finished = done@;
    done.push(current);
    proof {
        assert(texts(done@) =~= texts(finished).push(current@));
    }
    done
}

/// Whether two texts are the same.
pub fn same_text(a: &str, b: &str) -> (same: bool)
    ensures
        same == (a@ == b@),
{
    a.to_owned() == b.to_owned()
}

/// The texts of a sequence of strings.
pub open spec fn texts(strings: Seq<String>) -> Seq<Seq<char>> {
    strings.map_values(|s: String| s@)
}

} // verus!
