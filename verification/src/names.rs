//! Names: from the `snake_case` of methods to the `PascalCase` of variants.
use vstd::prelude::*;

verus! {

/// The upper case of a character, by the Unicode tables.
pub uninterp spec fn uppercase(c: char) -> Seq<char>;

/// The lower case of a character, by the Unicode tables.
pub uninterp spec fn lowercase(c: char) -> Seq<char>;

/// Whether `c` is an ASCII character.
pub open spec fn is_ascii_char(c: char) -> bool {
    c as u32 <= 127
}

/// The upper case of an ASCII character.
pub open spec fn ascii_upper(c: char) -> char {
    if 'a' <= c <= 'z' {
        (c as u32 - 32) as char
    } else {
        c
    }
}

/// The lower case of an ASCII character.
pub open spec fn ascii_lower(c: char) -> char {
    if 'A' <= c <= 'Z' {
        (c as u32 + 32) as char
    } else {
        c
    }
}

/// `char::to_uppercase` hands out the upper case of a character, which for an
/// ASCII character is a single ASCII character.
#[verifier::external_body]
fn to_uppercase(c: char) -> (r: Vec<char>)
    ensures
        r@ == uppercase(c),
        is_ascii_char(c) ==> r@ == seq![ascii_upper(c)],
{
    c.to_uppercase().collect()
}

/// `char::to_lowercase` hands out the lower case of a character, which for an
/// ASCII character is a single ASCII character.
#[verifier::external_body]
fn to_lowercase(c: char) -> (r: Vec<char>)
    ensures
        r@ == lowercase(c),
        is_ascii_char(c) ==> r@ == seq![ascii_lower(c)],
{
    c.to_lowercase().collect()
}

/// Whether the character at `i` is the first of a word.
pub open spec fn starts_word(s: Seq<char>, i: int) -> bool {
    i == 0 || s[i - 1] == '_'
}

/// The upper case of a character.
pub open spec fn upper(c: char) -> Seq<char> {
    if is_ascii_char(c) {
        seq![ascii_upper(c)]
    } else {
        uppercase(c)
    }
}

/// The lower case of a character.
pub open spec fn lower(c: char) -> Seq<char> {
    if is_ascii_char(c) {
        seq![ascii_lower(c)]
    } else {
        lowercase(c)
    }
}

/// What the character at `i` of a `snake_case` name contributes to the
/// `PascalCase` name.
pub open spec fn pascal_piece(s: Seq<char>, i: int) -> Seq<char> {
    if s[i] == '_' {
        Seq::empty()
    } else if starts_word(s, i) {
        upper(s[i])
    } else {
        lower(s[i])
    }
}

/// What the first `n` characters contribute.
pub open spec fn pascal_prefix(s: Seq<char>, n: nat) -> Seq<char>
    decreases n,
{
    if n == 0 {
        Seq::empty()
    } else {
        pascal_prefix(s, (n - 1) as nat) + pascal_piece(s, n - 1)
    }
}

/// The `PascalCase` form of a `snake_case` name: every word with its first
/// letter in upper case and the others in lower case, without the underscores.
pub open spec fn pascal_case(s: Seq<char>) -> Seq<char> {
    pascal_prefix(s, s.len())
}

/// Whether every character is ASCII.
pub open spec fn ascii_name(s: Seq<char>) -> bool {
    forall|i: int| 0 <= i < s.len() ==> is_ascii_char(#[trigger] s[i])
}

/// The `PascalCase` form of a `snake_case` name.
pub fn snake_to_pascal_case(s: &str) -> (r: String)
    ensures
        r@ == pascal_case(s@),
{
    let mut result = String::new();
    let mut capitalize_next = true;
    let n: usize = s.unicode_len();
    let mut i: usize = 0;
    while i < n
        invariant
            i <= n,
            n == s@.len(),
            capitalize_next == starts_word(s@, i as int),
            result@ == pascal_prefix(s@, i as nat),
        decreases n - i,
    {
        let c = s.get_char(i);
        if c == '_' {
            capitalize_next = true;
            assert(result@ =~= pascal_prefix(s@, (i + 1) as nat));
        } else if capitalize_next {
            let upper = to_uppercase(c);
            push_all(&mut result, &upper);
            capitalize_next = false;
            assert(result@ =~= pascal_prefix(s@, (i + 1) as nat));
        } else {
            let lower = to_lowercase(c);
            push_all(&mut result, &lower);
            assert(result@ =~= pascal_prefix(s@, (i + 1) as nat));
        }
        i += 1;
    }
    result
}

/// Appends the characters in `chars`.
fn push_all(out: &mut String, chars: &Vec<char>)
    ensures
        final(out)@ == old(out)@ + chars@,
{
    let mut i: usize = 0;
    while i < chars.len()
        invariant
            i <= chars@.len(),
            out@ == old(out)@ + chars@.take(i as int),
        decreases chars@.len() - i,
    {
        out.push(chars[i]);
        i += 1;
        assert(out@ =~= old(out)@ + chars@.take(i as int));
    }
    assert(chars@.take(i as int) =~= chars@);
}

/// The words of a name convert one by one: two names joined by an underscore
/// convert to their two conversions side by side.
pub proof fn words_convert_apart(a: Seq<char>, b: Seq<char>)
    ensures
        pascal_case(a + seq!['_'] + b) == pascal_case(a) + pascal_case(b),
{
    words_convert_apart_upto(a, b, b.len());
}

proof fn first_word_converts(a: Seq<char>, rest: Seq<char>, n: nat)
    requires
        n <= a.len(),
    ensures
        pascal_prefix(a + rest, n) == pascal_prefix(a, n),
    decreases n,
{
    if n > 0 {
        first_word_converts(a, rest, (n - 1) as nat);
        assert(pascal_piece(a + rest, n - 1) == pascal_piece(a, n - 1));
    }
}

proof fn words_convert_apart_upto(a: Seq<char>, b: Seq<char>, n: nat)
    requires
        n <= b.len(),
    ensures
        pascal_prefix(a + seq!['_'] + b, a.len() + 1 + n) == pascal_case(a) + pascal_prefix(b, n),
    decreases n,
{
    let s = a + seq!['_'] + b;
    if n == 0 {
        first_word_converts(a, seq!['_'] + b, a.len());
        assert(s =~= a + (seq!['_'] + b));
        assert(s[a.len() as int] == '_');
        assert(pascal_prefix(s, a.len() + 1) =~= pascal_case(a));
        assert(pascal_case(a) + pascal_prefix(b, 0) =~= pascal_case(a));
    } else {
        words_convert_apart_upto(a, b, (n - 1) as nat);
        let at = a.len() + n;
        assert(s[at as int] == b[n - 1]);
        assert(starts_word(s, at as int) == starts_word(b, n - 1)) by {
            assert(s[at - 1] == (if n == 1 {
                '_'
            } else {
                b[n - 2]
            }));
        }
        assert(pascal_piece(s, at as int) == pascal_piece(b, n - 1));
        assert(pascal_prefix(s, a.len() + 1 + n) =~= pascal_case(a) + pascal_prefix(b, n));
    }
}

/// No underscore is left in the `PascalCase` form of an ASCII name.
pub proof fn no_underscore_is_left(s: Seq<char>)
    requires
        ascii_name(s),
    ensures
        !pascal_case(s).contains('_'),
{
    no_underscore_in_prefix(s, s.len());
}

proof fn no_underscore_in_prefix(s: Seq<char>, n: nat)
    requires
        ascii_name(s),
        n <= s.len(),
    ensures
        !pascal_prefix(s, n).contains('_'),
    decreases n,
{
    if n > 0 {
        no_underscore_in_prefix(s, (n - 1) as nat);
        let front = pascal_prefix(s, (n - 1) as nat);
        let list = pascal_prefix(s, n);
        assert(is_ascii_char(s[n - 1]));
        assert forall|i: int| 0 <= i < list.len() implies list[i] != '_' by {
            if i < front.len() {
                assert(list[i] == front[i]);
                assert(front.contains(front[i]));
            }
        }
    }
}

/// A word converts letter by letter: the first letter to upper case and every
/// later one to lower case. For ASCII these are the letters 32 places before and
/// after; what is no letter stays as it is.
pub proof fn words_convert_letter_by_letter(word: Seq<char>, c: char)
    requires
        !word.contains('_'),
        c != '_',
    ensures
        pascal_case(Seq::empty()).len() == 0,
        word.len() == 0 && c as u32 <= 127 ==> pascal_case(word.push(c)) == seq![
            if 'a' <= c <= 'z' {
                (c as u32 - 32) as char
            } else {
                c
            },
        ],
        word.len() == 0 && c as u32 > 127 ==> pascal_case(word.push(c)) == uppercase(c),
        word.len() > 0 && c as u32 <= 127 ==> pascal_case(word.push(c)) == pascal_case(word).push(
            if 'A' <= c <= 'Z' {
                (c as u32 + 32) as char
            } else {
                c
            },
        ),
        word.len() > 0 && c as u32 > 127 ==> pascal_case(word.push(c)) == pascal_case(word)
            + lowercase(c),
{
    let all = word.push(c);
    let n = word.len();
    assert(all =~= word + seq![c]);
    first_word_converts(word, seq![c], n);
    assert(all[n as int] == c);
    if n > 0 {
        assert(all[n - 1] == word[n - 1]);
        assert(word.contains(word[n - 1]));
        assert(!starts_word(all, n as int));
        assert(pascal_case(all) == pascal_case(word) + lower(c));
        assert(pascal_case(word) + seq![ascii_lower(c)] =~= pascal_case(word).push(ascii_lower(c)));
    } else {
        assert(pascal_case(word) =~= Seq::empty());
        assert(pascal_case(all) =~= upper(c));
    }
}

} // verus!
