//! Text as sequences of characters: classes, trimming, splitting, case folding, numbers.

use vstd::prelude::*;
use vstd::slice::slice_subrange;
use vstd::utf8::*;

verus! {

/// `String::push` appends one character to the end of the string.
pub assume_specification[ String::push ](s: &mut String, ch: char)
    ensures
        final(s)@ == old(s)@.push(ch),
;

/// `std::str::from_utf8` borrows bytes as a string, and does so exactly when they are valid
/// UTF-8; the string is then made of these bytes.
#[verifier::external_body]
pub(crate) fn utf8_text(bytes: &[u8]) -> (text: Option<&str>)
    ensures
        text is Some <==> valid_utf8(bytes@),
        text matches Some(s) ==> encode_utf8(s@) == bytes@,
{
    std::str::from_utf8(bytes).ok()
}

/// The text that `String::from_utf8_lossy` makes of bytes.
pub uninterp spec fn utf8_lossy(bytes: Seq<u8>) -> Seq<char>;

/// `String::from_utf8_lossy` makes a text of bytes. Of valid UTF-8 it makes the text that the
/// bytes encode; what it puts in place of other bytes is left to its name.
#[verifier::external_body]
pub(crate) fn lossy_text(bytes: &[u8]) -> (text: String)
    ensures
        text@ == utf8_lossy(bytes@),
        valid_utf8(bytes@) ==> encode_utf8(text@) == bytes@,
{
    String::from_utf8_lossy(bytes).into_owned()
}

/// The sets of characters that the formats of this library trim or split at.
#[derive(Clone, Copy, Debug, PartialEq, Eq)]
pub enum CharClass {
    /// The Unicode `White_Space` property.
    WhiteSpace,
    /// The line feed.
    LineFeed,
    /// The field separator of the signature database.
    Pipe,
    /// The separator of rule tags.
    Comma,
    /// The separator of offset, name and data in a string match.
    Colon,
    /// `[` and `]`, which enclose rule tags.
    Bracket,
    /// `{` and `}`, which enclose hexadecimal match data.
    Brace,
    /// The separator of the names in the path of an archive entry.
    Slash,
}

/// The Unicode `White_Space` property.
pub open spec fn is_white_space(c: char) -> bool {
    ||| '\u{9}' <= c <= '\u{d}'
    ||| c == '\u{20}'
    ||| c == '\u{85}'
    ||| c == '\u{a0}'
    ||| c == '\u{1680}'
    ||| '\u{2000}' <= c <= '\u{200a}'
    ||| c == '\u{2028}'
    ||| c == '\u{2029}'
    ||| c == '\u{202f}'
    ||| c == '\u{205f}'
    ||| c == '\u{3000}'
}

impl CharClass {
    /// Whether the class has the character.
    pub open spec fn has(self, c: char) -> bool {
        match self {
            CharClass::WhiteSpace => is_white_space(c),
            CharClass::LineFeed => c == '\n',
            CharClass::Pipe => c == '|',
            CharClass::Comma => c == ',',
            CharClass::Colon => c == ':',
            CharClass::Bracket => c == '[' || c == ']',
            CharClass::Brace => c == '{' || c == '}',
            CharClass::Slash => c == '/',
        }
    }

    /// Whether the class has the character.
    pub fn contains(self, c: char) -> (held: bool)
        ensures
            held == self.has(c),
    {
        match self {
            CharClass::WhiteSpace => {
                ('\u{9}' <= c && c <= '\u{d}') || c == '\u{20}' || c == '\u{85}' || c == '\u{a0}'
                    || c == '\u{1680}' || ('\u{2000}' <= c && c <= '\u{200a}') || c == '\u{2028}'
                    || c == '\u{2029}' || c == '\u{202f}' || c == '\u{205f}' || c == '\u{3000}'
            },
            CharClass::LineFeed => c == '\n',
            CharClass::Pipe => c == '|',
            CharClass::Comma => c == ',',
            CharClass::Colon => c == ':',
            CharClass::Bracket => c == '[' || c == ']',
            CharClass::Brace => c == '{' || c == '}',
            CharClass::Slash => c == '/',
        }
    }
}

/// The characters of a string.
pub fn to_chars(s: &str) -> (chars: Vec<char>)
    ensures
        chars@ == s@,
{
    let mut chars: Vec<char> = Vec::new();
    for c in it: s.chars()
        invariant
            it.seq() == s@,
            chars@ == s@.take(it.index() as int),
    {
        chars.push(c);
        assert(s@.take(it.index() + 1) =~= s@.take(it.index() as int).push(c));
    }
    assert(s@.take(s@.len() as int) =~= s@);
    chars
}

/// The string of the given characters.
pub fn from_chars(chars: &[char]) -> (s: String)
    ensures
        s@ == chars@,
{
    let mut s = String::new();
    for i in 0..chars.len()
        invariant
            s@ == chars@.take(i as int),
    {
        s.push(chars[i]);
        assert(chars@.take(i + 1) =~= chars@.take(i as int).push(chars@[i as int]));
    }
    assert(chars@.take(chars@.len() as int) =~= chars@);
    s
}

/// The text without its leading characters of the class.
pub open spec fn trim_start(s: Seq<char>, class: CharClass) -> Seq<char>
    decreases s.len(),
{
    if s.len() > 0 && class.has(s[0]) {
        trim_start(s.drop_first(), class)
    } else {
        s
    }
}

/// The text without its trailing characters of the class.
pub open spec fn trim_end(s: Seq<char>, class: CharClass) -> Seq<char>
    decreases s.len(),
{
    if s.len() > 0 && class.has(s.last()) {
        trim_end(s.drop_last(), class)
    } else {
        s
    }
}

/// The text without the characters of the class at both its ends.
pub open spec fn trim_class(s: Seq<char>, class: CharClass) -> Seq<char> {
    trim_end(trim_start(s, class), class)
}

/// The text without the white space at both its ends.
pub open spec fn trimmed(s: Seq<char>) -> Seq<char> {
    trim_class(s, CharClass::WhiteSpace)
}

/// Trims the characters of a class from both ends.
pub fn trim_chars(s: &[char], class: CharClass) -> (t: &[char])
    ensures
        t@ == trim_class(s@, class),
{
    let mut from: usize = 0;
    assert(s@.skip(0) =~= s@);
    while from < s.len() && class.contains(s[from])
        invariant
            from <= s@.len(),
            trim_start(s@, class) == trim_start(s@.skip(from as int), class),
        decreases s@.len() - from,
    {
        assert(s@.skip(from as int).drop_first() =~= s@.skip(from + 1));
        from += 1;
    }
    let mut to: usize = s.len();
    assert(s@.subrange(from as int, to as int) =~= s@.skip(from as int));
    while from < to && class.contains(s[to - 1])
        invariant
            from <= to <= s@.len(),
            trim_class(s@, class) == trim_end(s@.subrange(from as int, to as int), class),
        decreases to - from,
    {
        assert(s@.subrange(from as int, to as int).drop_last() =~= s@.subrange(
            from as int,
            to - 1,
        ));
        to -= 1;
    }
    slice_subrange(s, from, to)
}

proof fn lemma_trim_start(s: Seq<char>, class: CharClass)
    ensures
        trim_start(s, class).len() > 0 ==> !class.has(trim_start(s, class)[0]),
    decreases s.len(),
{
    if s.len() > 0 && class.has(s[0]) {
        lemma_trim_start(s.drop_first(), class);
    }
}

proof fn lemma_trim_end(s: Seq<char>, class: CharClass)
    ensures
        trim_end(s, class).is_prefix_of(s),
        trim_end(s, class).len() > 0 ==> !class.has(trim_end(s, class).last()),
    decreases s.len(),
{
    if s.len() > 0 && class.has(s.last()) {
        lemma_trim_end(s.drop_last(), class);
    }
}

/// A trimmed text neither starts nor ends with a character of the class.
pub proof fn lemma_trimmed_ends(s: Seq<char>, class: CharClass)
    ensures
        trim_class(s, class).len() > 0 ==> !class.has(trim_class(s, class)[0]) && !class.has(
            trim_class(s, class).last(),
        ),
{
    lemma_trim_start(s, class);
    lemma_trim_end(trim_start(s, class), class);
}

proof fn lemma_trim_start_is_part(s: Seq<char>, class: CharClass)
    ensures
        trim_start(s, class).is_suffix_of(s),
    decreases s.len(),
{
    if s.len() > 0 && class.has(s[0]) {
        lemma_trim_start_is_part(s.drop_first(), class);
    }
}

/// A trimmed text has no characters that the text has not.
pub proof fn lemma_trim_is_part(s: Seq<char>, class: CharClass)
    ensures
        forall|j: int|
            0 <= j < trim_class(s, class).len() ==> s.contains(#[trigger] trim_class(s, class)[j]),
{
    let start = trim_start(s, class);
    let whole = trim_class(s, class);
    lemma_trim_start_is_part(s, class);
    lemma_trim_end(start, class);
    assert forall|j: int| 0 <= j < whole.len() implies s.contains(#[trigger] whole[j]) by {
        assert(whole[j] == start[j]);
        assert(start[j] == s[s.len() - start.len() + j]);
    }
}

/// What stands before a text that starts outside the class is trimmed on its own.
pub proof fn lemma_trim_start_concat(a: Seq<char>, b: Seq<char>, class: CharClass)
    requires
        b.len() > 0,
        !class.has(b[0]),
    ensures
        trim_start(a + b, class) == trim_start(a, class) + b,
        trim_start(a, class).is_suffix_of(a),
    decreases a.len(),
{
    if a.len() == 0 {
        assert(a + b =~= b);
    } else if class.has(a[0]) {
        lemma_trim_start_concat(a.drop_first(), b, class);
        assert((a + b).drop_first() =~= a.drop_first() + b);
    } else {
        assert((a + b)[0] == a[0]);
    }
}

/// Trimming leaves a text that neither starts nor ends with a character of the class.
pub proof fn lemma_trim_fixed(s: Seq<char>, class: CharClass)
    requires
        s.len() > 0 ==> !class.has(s[0]) && !class.has(s.last()),
    ensures
        trim_class(s, class) == s,
{
}

/// The white space trimmed from both ends of a string.
pub fn trim(s: &str) -> (t: Vec<char>)
    ensures
        t@ == trimmed(s@),
{
    let chars = to_chars(s);
    chars_to_vec(trim_chars(&chars, CharClass::WhiteSpace))
}

/// An owned copy of a run of characters.
pub fn chars_to_vec(s: &[char]) -> (v: Vec<char>)
    ensures
        v@ == s@,
{
    let mut v: Vec<char> = Vec::new();
    for i in 0..s.len()
        invariant
            v@ == s@.take(i as int),
    {
        v.push(s[i]);
        assert(s@.take(i + 1) =~= s@.take(i as int).push(s@[i as int]));
    }
    assert(s@.take(s@.len() as int) =~= s@);
    v
}

/// Whether two runs of characters are the same.
pub fn chars_equal(a: &[char], b: &[char]) -> (same: bool)
    ensures
        same == (a@ == b@),
{
    if a.len() != b.len() {
        return false;
    }
    for i in 0..a.len()
        invariant
            a@.len() == b@.len(),
            forall|j: int| 0 <= j < i ==> a@[j] == b@[j],
    {
        if a[i] != b[i] {
            return false;
        }
    }
    assert(a@ =~= b@);
    true
}

/// The pieces between the characters of a class; one more than there are such characters.
pub open spec fn split(s: Seq<char>, class: CharClass) -> Seq<Seq<char>>
    decreases s.len(),
{
    if s.len() == 0 {
        seq![Seq::<char>::empty()]
    } else {
        let before = split(s.drop_last(), class);
        if class.has(s.last()) {
            before.push(Seq::<char>::empty())
        } else {
            before.update(before.len() - 1, before.last().push(s.last()))
        }
    }
}

/// A split has at least one piece.
pub proof fn lemma_split_len(s: Seq<char>, class: CharClass)
    ensures
        split(s, class).len() >= 1,
    decreases s.len(),
{
    if s.len() > 0 {
        lemma_split_len(s.drop_last(), class);
    }
}

/// The texts that a vector of character vectors holds.
pub open spec fn texts(v: Seq<Vec<char>>) -> Seq<Seq<char>> {
    Seq::new(v.len(), |i: int| v[i]@)
}

/// Splits at the characters of a class.
pub fn split_chars(s: &[char], class: CharClass) -> (pieces: Vec<Vec<char>>)
    ensures
        texts(pieces@) == split(s@, class),
        pieces@.len() >= 1,
{
    let mut done: Vec<Vec<char>> = Vec::new();
    let mut current: Vec<char> = Vec::new();
    assert(s@.take(0) =~= Seq::<char>::empty());
    assert(texts(done@).push(current@) =~= split(s@.take(0), class));
    for i in 0..s.len()
        invariant
            split(s@.take(i as int), class) == texts(done@).push(current@),
    {
        assert(s@.take(i + 1).drop_last() =~= s@.take(i as int));
        let ghost before = texts(done@).push(current@);
        if class.contains(s[i]) {
            done.push(current);
            current = Vec::new();
            assert(texts(done@) =~= before);
        } else {
            current.push(s[i]);
            assert(texts(done@).push(current@) =~= before.update(
                before.len() - 1,
                before.last().push(s@[i as int]),
            ));
        }
    }
    assert(s@.take(s@.len() as int) =~= s@);
    let ghost whole = texts(done@).push(current@);
    done.push(current);
    assert(texts(done@) =~= whole);
    done
}

/// The pieces that are not empty, in their order.
pub open spec fn non_empty(pieces: Seq<Seq<char>>) -> Seq<Seq<char>>
    decreases pieces.len(),
{
    if pieces.len() == 0 {
        pieces
    } else if pieces.last().len() == 0 {
        non_empty(pieces.drop_last())
    } else {
        non_empty(pieces.drop_last()).push(pieces.last())
    }
}

/// The white space separated words of a text.
pub open spec fn words(s: Seq<char>) -> Seq<Seq<char>> {
    non_empty(split(s, CharClass::WhiteSpace))
}

/// The pieces, each without the white space at its ends.
pub open spec fn trimmed_all(pieces: Seq<Seq<char>>) -> Seq<Seq<char>> {
    Seq::new(pieces.len(), |i: int| trimmed(pieces[i]))
}

/// Trims every piece and keeps those that are not empty then.
pub fn trim_pieces(pieces: &Vec<Vec<char>>) -> (kept: Vec<Vec<char>>)
    ensures
        texts(kept@) == non_empty(trimmed_all(texts(pieces@))),
{
    let mut kept: Vec<Vec<char>> = Vec::new();
    let ghost all = trimmed_all(texts(pieces@));
    assert(all.take(0) =~= Seq::<Seq<char>>::empty());
    assert(texts(kept@) =~= non_empty(all.take(0)));
    for i in 0..pieces.len()
        invariant
            all == trimmed_all(texts(pieces@)),
            texts(kept@) == non_empty(all.take(i as int)),
    {
        let piece = chars_to_vec(trim_chars(&pieces[i], CharClass::WhiteSpace));
        assert(all.take(i + 1).drop_last() =~= all.take(i as int));
        assert(all[i as int] == piece@);
        if piece.len() > 0 {
            let ghost old_kept = kept@;
            kept.push(piece);
            assert(texts(kept@) =~= texts(old_kept).push(piece@));
        }
    }
    assert(all.take(all.len() as int) =~= all);
    kept
}

/// Splits a text into its white space separated words.
pub fn split_words(s: &[char]) -> (found: Vec<Vec<char>>)
    ensures
        texts(found@) == words(s@),
{
    let pieces = split_chars(s, CharClass::WhiteSpace);
    let mut found: Vec<Vec<char>> = Vec::new();
    let ghost all = texts(pieces@);
    assert(all.take(0) =~= Seq::<Seq<char>>::empty());
    assert(texts(found@) =~= non_empty(all.take(0)));
    for i in 0..pieces.len()
        invariant
            all == texts(pieces@),
            texts(found@) == non_empty(all.take(i as int)),
    {
        assert(all.take(i + 1).drop_last() =~= all.take(i as int));
        assert(all[i as int] == pieces@[i as int]@);
        if pieces[i].len() > 0 {
            let ghost old_found = found@;
            found.push(chars_to_vec(&pieces[i]));
            assert(texts(found@) =~= texts(old_found).push(all[i as int]));
        }
    }
    assert(all.take(all.len() as int) =~= all);
    found
}

/// The position of the first character of the class, or the length of the text.
pub open spec fn first_at(s: Seq<char>, class: CharClass) -> nat
    decreases s.len(),
{
    if s.len() == 0 || class.has(s[0]) {
        0
    } else {
        1 + first_at(s.drop_first(), class)
    }
}

/// `first_at` is where the characters outside the class end.
pub proof fn lemma_first_at(s: Seq<char>, class: CharClass, i: int)
    requires
        0 <= i <= s.len(),
        forall|j: int| 0 <= j < i ==> !class.has(#[trigger] s[j]),
        i < s.len() ==> class.has(s[i]),
    ensures
        first_at(s, class) == i,
    decreases s.len(),
{
    if i > 0 {
        let rest = s.drop_first();
        assert forall|j: int| 0 <= j < i - 1 implies !class.has(#[trigger] rest[j]) by {
            assert(rest[j] == s[j + 1]);
        }
        assert(!class.has(s[0]));
        lemma_first_at(rest, class, i - 1);
    }
}

/// What stands before and after the first character of the class, if there is one.
pub open spec fn split_once(s: Seq<char>, class: CharClass) -> Option<(Seq<char>, Seq<char>)> {
    let at = first_at(s, class) as int;
    if at < s.len() {
        Some((s.take(at), s.skip(at + 1)))
    } else {
        None
    }
}

/// Splits at the first character of a class.
pub fn split_once_chars(s: &[char], class: CharClass) -> (parts: Option<(&[char], &[char])>)
    ensures
        parts is Some <==> split_once(s@, class) is Some,
        parts matches Some((a, b)) ==> split_once(s@, class) == Some((a@, b@)),
{
    let mut i: usize = 0;
    while i < s.len() && !class.contains(s[i])
        invariant
            i <= s@.len(),
            forall|j: int| 0 <= j < i ==> !class.has(#[trigger] s@[j]),
        decreases s@.len() - i,
    {
        i += 1;
    }
    proof {
        lemma_first_at(s@, class, i as int);
    }
    if i < s.len() {
        let a = slice_subrange(s, 0, i);
        let b = slice_subrange(s, i + 1, s.len());
        assert(a@ =~= s@.take(i as int));
        assert(b@ =~= s@.skip(i + 1));
        Some((a, b))
    } else {
        None
    }
}

/// The ASCII lower case of a character; any other character stays.
pub open spec fn lower_char(c: char) -> char {
    if 'A' <= c <= 'Z' {
        (c as u32 + 32) as char
    } else {
        c
    }
}

/// The ASCII upper case of a character; any other character stays.
pub open spec fn upper_char(c: char) -> char {
    if 'a' <= c <= 'z' {
        (c as u32 - 32) as char
    } else {
        c
    }
}

/// A text in ASCII lower case.
pub open spec fn lower(s: Seq<char>) -> Seq<char> {
    Seq::new(s.len(), |i: int| lower_char(s[i]))
}

/// A text in ASCII upper case.
pub open spec fn upper(s: Seq<char>) -> Seq<char> {
    Seq::new(s.len(), |i: int| upper_char(s[i]))
}

/// Neither folding a text to one case before nor doing so twice changes its lower case.
pub proof fn lower_ignores_case(s: Seq<char>)
    ensures
        lower(upper(s)) == lower(s),
        lower(lower(s)) == lower(s),
{
    assert(lower(upper(s)) =~= lower(s));
    assert(lower(lower(s)) =~= lower(s));
}

/// Trimming and lower case do not get into each other's way.
pub proof fn lemma_trim_lower(s: Seq<char>, class: CharClass)
    ensures
        trim_class(lower(s), class) == lower(trim_class(s, class)),
{
    lemma_trim_start_lower(s, class);
    lemma_trim_end_lower(trim_start(s, class), class);
}

proof fn lemma_trim_start_lower(s: Seq<char>, class: CharClass)
    ensures
        trim_start(lower(s), class) == lower(trim_start(s, class)),
    decreases s.len(),
{
    if s.len() > 0 {
        assert(lower(s).drop_first() =~= lower(s.drop_first()));
        lemma_trim_start_lower(s.drop_first(), class);
    }
}

proof fn lemma_trim_end_lower(s: Seq<char>, class: CharClass)
    ensures
        trim_end(lower(s), class) == lower(trim_end(s, class)),
    decreases s.len(),
{
    if s.len() > 0 {
        assert(lower(s).drop_last() =~= lower(s.drop_last()));
        lemma_trim_end_lower(s.drop_last(), class);
    }
}

/// The encoding of texts one after another is that of the one, then that of the other.
pub proof fn lemma_encode_concat(a: Seq<char>, b: Seq<char>)
    ensures
        encode_utf8(a + b) == encode_utf8(a) + encode_utf8(b),
    decreases a.len(),
{
    if a.len() == 0 {
        assert(a + b =~= b);
        assert(encode_utf8(a) + encode_utf8(b) =~= encode_utf8(b));
    } else {
        lemma_encode_concat(a.drop_first(), b);
        assert((a + b).drop_first() =~= a.drop_first() + b);
        assert(encode_utf8(a + b) =~= encode_utf8(a) + encode_utf8(b));
    }
}

/// The encoding of a text without an ASCII character has no byte of that character.
pub proof fn lemma_encode_without(s: Seq<char>, c: char, b: u8)
    requires
        !s.contains(c),
        b <= 0x7f,
        c == b as char,
    ensures
        !encode_utf8(s).contains(b),
    decreases s.len(),
{
    if s.len() > 0 {
        let rest = s.drop_first();
        assert(!rest.contains(c)) by {
            if rest.contains(c) {
                let i = choose|i: int| 0 <= i < rest.len() && rest[i] == c;
                assert(s[i + 1] == c);
            }
        }
        lemma_encode_without(rest, c, b);
        assert(s[0] != c);
        let scalar = s[0] as u32;
        char_is_scalar(s[0]);
        char_u32_cast(s[0], scalar);
        assert(scalar != b as u32) by {
            char_u32_cast(c, b as u32);
        }
        assert(scalar <= 0x7f && scalar != b as u32 ==> (scalar & 0x7F) as u8 != b) by (bit_vector);
        assert(b <= 0x7f ==> 0xC0u8 | ((scalar >> 6) & 0x1F) as u8 != b) by (bit_vector);
        assert(b <= 0x7f ==> 0xE0u8 | ((scalar >> 12) & 0x0F) as u8 != b) by (bit_vector);
        assert(b <= 0x7f ==> 0xF0u8 | ((scalar >> 18) & 0x7) as u8 != b) by (bit_vector);
        assert(b <= 0x7f ==> 0x80u8 | (scalar & 0x3F) as u8 != b) by (bit_vector);
        assert(b <= 0x7f ==> 0x80u8 | ((scalar >> 6) & 0x3F) as u8 != b) by (bit_vector);
        assert(b <= 0x7f ==> 0x80u8 | ((scalar >> 12) & 0x3F) as u8 != b) by (bit_vector);
        let first = encode_scalar(scalar);
        assert forall|i: int| 0 <= i < first.len() implies first[i] != b by {
            if has_width_1_encoding(scalar) {
                assert(first[0] == (scalar & 0x7F) as u8);
            } else if has_width_2_encoding(scalar) {
                assert(first[0] == 0xC0u8 | ((scalar >> 6) & 0x1F) as u8);
                assert(first[1] == 0x80u8 | (scalar & 0x3F) as u8);
            } else if has_width_3_encoding(scalar) {
                assert(first[0] == 0xE0u8 | ((scalar >> 12) & 0x0F) as u8);
                assert(first[1] == 0x80u8 | ((scalar >> 6) & 0x3F) as u8);
                assert(first[2] == 0x80u8 | (scalar & 0x3F) as u8);
            } else {
                assert(first[0] == 0xF0u8 | ((scalar >> 18) & 0x7) as u8);
                assert(first[1] == 0x80u8 | ((scalar >> 12) & 0x3F) as u8);
                assert(first[2] == 0x80u8 | ((scalar >> 6) & 0x3F) as u8);
                assert(first[3] == 0x80u8 | (scalar & 0x3F) as u8);
            }
        }
        assert(!(first + encode_utf8(rest)).contains(b)) by {
            let all = first + encode_utf8(rest);
            if all.contains(b) {
                let i = choose|i: int| 0 <= i < all.len() && all[i] == b;
                if i < first.len() {
                    assert(first[i] == b);
                } else {
                    assert(encode_utf8(rest)[i - first.len()] == b);
                }
            }
        }
    }
}

/// Turns a text into ASCII lower case.
pub fn to_lower(s: &[char]) -> (t: Vec<char>)
    ensures
        t@ == lower(s@),
{
    let mut t: Vec<char> = Vec::new();
    for i in 0..s.len()
        invariant
            t@ =~= lower(s@).take(i as int),
    {
        let c = s[i];
        let l = if 'A' <= c && c <= 'Z' {
            (c as u8 + 32) as char
        } else {
            c
        };
        t.push(l);
    }
    assert(t@ =~= lower(s@));
    t
}

/// Turns a text into ASCII upper case.
pub fn to_upper(s: &[char]) -> (t: Vec<char>)
    ensures
        t@ == upper(s@),
{
    let mut t: Vec<char> = Vec::new();
    for i in 0..s.len()
        invariant
            t@ =~= upper(s@).take(i as int),
    {
        let c = s[i];
        let u = if 'a' <= c && c <= 'z' {
            (c as u8 - 32) as char
        } else {
            c
        };
        t.push(u);
    }
    assert(t@ =~= upper(s@));
    t
}

/// Whether the needle occurs in the text.
pub open spec fn occurs_in(needle: Seq<char>, s: Seq<char>) -> bool {
    exists|i: int|
        0 <= i <= s.len() - needle.len() && #[trigger] s.subrange(i, i + needle.len()) == needle
}

/// Searches a text for a needle.
pub fn contains_chars(s: &[char], needle: &[char]) -> (found: bool)
    ensures
        found == occurs_in(needle@, s@),
{
    if needle.len() > s.len() {
        return false;
    }
    let total: usize = s.len();
    let last: usize = total - needle.len();
    let mut i: usize = 0;
    while i <= last
        invariant
            total == s@.len(),
            last == total - needle@.len(),
            i <= last + 1,
            forall|j: int|
                0 <= j < i ==> #[trigger] s@.subrange(j, j + needle@.len()) != needle@,
        decreases last + 1 - i,
    {
        if chars_equal(slice_subrange(s, i, i + needle.len()), needle) {
            return true;
        }
        if i == last {
            return false;
        }
        i += 1;
    }
    false
}

/// Whether a text starts with another.
pub fn starts_with_chars(s: &[char], prefix: &[char]) -> (starts: bool)
    ensures
        starts == prefix@.is_prefix_of(s@),
{
    if prefix.len() > s.len() {
        return false;
    }
    let head = slice_subrange(s, 0, prefix.len());
    chars_equal(prefix, head)
}

/// The texts with a separator between each two of them.
pub open spec fn joined(parts: Seq<Seq<char>>, separator: Seq<char>) -> Seq<char>
    decreases parts.len(),
{
    if parts.len() == 0 {
        Seq::empty()
    } else if parts.len() == 1 {
        parts[0]
    } else {
        joined(parts.drop_last(), separator) + separator + parts.last()
    }
}

/// The texts one after another.
pub open spec fn concatenated(parts: Seq<Seq<char>>) -> Seq<char>
    decreases parts.len(),
{
    if parts.len() == 0 {
        Seq::empty()
    } else {
        concatenated(parts.drop_last()) + parts.last()
    }
}

/// The decimal digit of a value below ten.
pub open spec fn digit_char(d: nat) -> char {
    ('0' as u32 + d) as char
}

/// A number in decimal, without leading zeros.
pub open spec fn decimal(n: nat) -> Seq<char>
    decreases n,
{
    if n < 10 {
        seq![digit_char(n)]
    } else {
        decimal(n / 10).push(digit_char(n % 10))
    }
}

/// Appends a number in decimal.
pub fn push_decimal(out: &mut String, n: u128)
    ensures
        final(out)@ == old(out)@ + decimal(n as nat),
    decreases n,
{
    if n >= 10 {
        push_decimal(out, n / 10);
    }
    let d = (n % 10) as u8;
    out.push((48 + d) as char);
    assert(out@ =~= old(out)@ + decimal(n as nat));
}

/// The value of a digit in a radix of at most sixteen.
pub open spec fn digit_value(c: char, radix: nat) -> Option<nat> {
    let value = if '0' <= c <= '9' {
        c as nat - '0' as nat
    } else if 'a' <= c <= 'f' {
        c as nat - 'a' as nat + 10
    } else if 'A' <= c <= 'F' {
        c as nat - 'A' as nat + 10
    } else {
        16
    };
    if value < radix {
        Some(value as nat)
    } else {
        None
    }
}

/// The number that a run of digits writes; none if a character is no digit.
pub open spec fn digits_value(s: Seq<char>, radix: nat) -> Option<nat>
    decreases s.len(),
{
    if s.len() == 0 {
        Some(0)
    } else {
        match (digits_value(s.drop_last(), radix), digit_value(s.last(), radix)) {
            (Some(high), Some(low)) => Some(high * radix + low),
            _ => None,
        }
    }
}

/// A number as text: an optional `+`, then at least one digit, at most `u64::MAX` in value.
pub open spec fn unsigned_value(s: Seq<char>, radix: nat) -> Option<nat> {
    let digits = if s.len() > 0 && s[0] == '+' {
        s.skip(1)
    } else {
        s
    };
    match digits_value(digits, radix) {
        Some(value) => if digits.len() > 0 && value <= u64::MAX {
            Some(value)
        } else {
            None
        },
        None => None,
    }
}

/// Every prefix of a run of digits is one, and writes no larger number.
proof fn lemma_digits_prefix(s: Seq<char>, radix: nat, i: int)
    requires
        0 <= i <= s.len(),
        radix >= 1,
        digits_value(s, radix) is Some,
    ensures
        digits_value(s.take(i), radix) is Some,
        digits_value(s.take(i), radix)->0 <= digits_value(s, radix)->0,
    decreases s.len(),
{
    if i == s.len() {
        assert(s.take(i) =~= s);
    } else {
        lemma_digits_prefix(s.drop_last(), radix, i);
        assert(s.drop_last().take(i) =~= s.take(i));
        let high = digits_value(s.drop_last(), radix)->0;
        assert(high <= high * radix) by (nonlinear_arith)
            requires
                radix >= 1,
        ;
    }
}

/// Reads a digit.
fn read_digit(c: char, radix: u64) -> (value: Option<u64>)
    requires
        2 <= radix <= 16,
    ensures
        value is Some <==> digit_value(c, radix as nat) is Some,
        value matches Some(v) ==> digit_value(c, radix as nat) == Some(v as nat) && v < radix,
{
    let value: u64 = if '0' <= c && c <= '9' {
        (c as u8 - 48) as u64
    } else if 'a' <= c && c <= 'f' {
        (c as u8 - 97) as u64 + 10
    } else if 'A' <= c && c <= 'F' {
        (c as u8 - 65) as u64 + 10
    } else {
        16
    };
    if value < radix {
        Some(value)
    } else {
        None
    }
}

/// Reads an unsigned number.
pub fn read_unsigned(s: &[char], radix: u64) -> (value: Option<u64>)
    requires
        2 <= radix <= 16,
    ensures
        value is Some <==> unsigned_value(s@, radix as nat) is Some,
        value matches Some(v) ==> unsigned_value(s@, radix as nat) == Some(v as nat),
{
    let from: usize = if s.len() > 0 && s[0] == '+' {
        1
    } else {
        0
    };
    let digits = slice_subrange(s, from, s.len());
    proof {
        assert(from == 0 ==> digits@ =~= s@);
        assert(from == 1 ==> digits@ =~= s@.skip(1));
    }
    if digits.len() == 0 {
        return None;
    }
    let mut value: u64 = 0;
    assert(digits@.take(0) =~= Seq::<char>::empty());
    for i in 0..digits.len()
        invariant
            2 <= radix <= 16,
            digits_value(digits@.take(i as int), radix as nat) == Some(value as nat),
            digits@.len() > 0,
            from == 0 ==> digits@ == s@,
            from == 1 ==> digits@ == s@.skip(1),
            from == if s@.len() > 0 && s@[0] == '+' { 1int } else { 0int },
    {
        let ghost upto = digits@.take(i + 1);
        proof {
            assert(upto.drop_last() =~= digits@.take(i as int));
            if digits_value(digits@, radix as nat) is Some {
                lemma_digits_prefix(digits@, radix as nat, i + 1);
            }
        }
        match read_digit(digits[i], radix) {
            None => {
                return None;
            },
            Some(digit) => {
                assert(digits_value(upto, radix as nat) == Some(
                    (value as nat * radix as nat + digit as nat) as nat,
                ));
                match value.checked_mul(radix) {
                    None => {
                        return None;
                    },
                    Some(shifted) => {
                        match shifted.checked_add(digit) {
                            None => {
                                return None;
                            },
                            Some(next) => {
                                value = next;
                            },
                        }
                    },
                }
            },
        }
    }
    assert(digits@.take(digits@.len() as int) =~= digits@);
    Some(value)
}

/// The texts of a row of strings.
pub open spec fn string_texts(strings: Seq<String>) -> Seq<Seq<char>> {
    Seq::new(strings.len(), |i: int| strings[i]@)
}

/// Copies a text, where there is one.
pub fn copy_option(value: &Option<String>) -> (copy: Option<String>)
    ensures
        copy == *value,
{
    match value {
        Some(known) => Some(known.clone()),
        None => None,
    }
}

/// Copies a row of texts.
pub fn copy_strings(strings: &Vec<String>) -> (copy: Vec<String>)
    ensures
        string_texts(copy@) == string_texts(strings@),
{
    let mut copy: Vec<String> = Vec::new();
    for i in 0..strings.len()
        invariant
            copy@.len() == i,
            forall|j: int| 0 <= j < i ==> (#[trigger] copy@[j])@ == strings@[j]@,
    {
        copy.push(strings[i].clone());
    }
    assert(string_texts(copy@) =~= string_texts(strings@));
    copy
}

/// Trimming takes off the characters of the class that stand around a text, all of them and
/// nothing else.
pub proof fn trimming_leaves_the_core(
    before: Seq<char>,
    core: Seq<char>,
    after: Seq<char>,
    class: CharClass,
)
    requires
        forall|i: int| 0 <= i < before.len() ==> class.has(#[trigger] before[i]),
        forall|i: int| 0 <= i < after.len() ==> class.has(#[trigger] after[i]),
        core.len() > 0 ==> !class.has(core[0]) && !class.has(core.last()),
    ensures
        trim_class(before + core + after, class) == core,
{
    if core.len() > 0 {
        let rest = core + after;
        assert(before + core + after =~= before + rest);
        lemma_trim_start_concat(before, rest, class);
        lemma_trim_start_of_class(before, class);
        assert(trim_start(before, class) + rest =~= rest);
        lemma_trim_end_concat(core, after, class);
    } else {
        let all = before + core + after;
        assert forall|i: int| 0 <= i < all.len() implies class.has(#[trigger] all[i]) by {
            if i >= before.len() {
                assert(all[i] == after[i - before.len()]);
            }
        }
        lemma_trim_start_of_class(all, class);
        assert(core =~= Seq::<char>::empty());
    }
}

proof fn lemma_trim_start_of_class(s: Seq<char>, class: CharClass)
    requires
        forall|i: int| 0 <= i < s.len() ==> class.has(#[trigger] s[i]),
    ensures
        trim_start(s, class) == Seq::<char>::empty(),
    decreases s.len(),
{
    if s.len() > 0 {
        let rest = s.drop_first();
        assert forall|i: int| 0 <= i < rest.len() implies class.has(#[trigger] rest[i]) by {
            assert(rest[i] == s[i + 1]);
        }
        lemma_trim_start_of_class(rest, class);
    } else {
        assert(s =~= Seq::<char>::empty());
    }
}

proof fn lemma_trim_end_concat(core: Seq<char>, after: Seq<char>, class: CharClass)
    requires
        core.len() > 0,
        !class.has(core.last()),
        forall|i: int| 0 <= i < after.len() ==> class.has(#[trigger] after[i]),
    ensures
        trim_end(core + after, class) == core,
    decreases after.len(),
{
    if after.len() == 0 {
        assert(core + after =~= core);
    } else {
        let shorter = after.drop_last();
        assert forall|i: int| 0 <= i < shorter.len() implies class.has(#[trigger] shorter[i]) by {
            assert(shorter[i] == after[i]);
        }
        lemma_trim_end_concat(core, shorter, class);
        assert((core + after).drop_last() =~= core + shorter);
        assert((core + after).last() == after[after.len() - 1]);
    }
}

/// A split parts a text at each character of the class: what stands before one and what stands
/// after it are split on their own.
pub proof fn splitting_parts_at_separators(
    before: Seq<char>,
    separator: char,
    after: Seq<char>,
    class: CharClass,
)
    requires
        class.has(separator),
    ensures
        split(before.push(separator) + after, class) == split(before, class) + split(after, class),
    decreases after.len(),
{
    let whole = before.push(separator) + after;
    lemma_split_len(before, class);
    if after.len() == 0 {
        assert(whole =~= before.push(separator));
        assert(whole.drop_last() =~= before);
        assert(split(whole, class) =~= split(before, class) + split(after, class));
    } else {
        let shorter = after.drop_last();
        splitting_parts_at_separators(before, separator, shorter, class);
        lemma_split_len(shorter, class);
        assert(whole.drop_last() =~= before.push(separator) + shorter);
        assert(whole.last() == after.last());
        assert(split(whole, class) =~= split(before, class) + split(after, class));
    }
}

/// A text without characters of the class is not split.
pub proof fn splitting_keeps_a_piece(s: Seq<char>, class: CharClass)
    requires
        forall|i: int| 0 <= i < s.len() ==> !class.has(#[trigger] s[i]),
    ensures
        split(s, class) == seq![s],
    decreases s.len(),
{
    if s.len() == 0 {
        assert(s =~= Seq::<char>::empty());
    } else {
        let shorter = s.drop_last();
        assert forall|i: int| 0 <= i < shorter.len() implies !class.has(#[trigger] shorter[i]) by {
            assert(shorter[i] == s[i]);
        }
        splitting_keeps_a_piece(shorter, class);
        assert(!class.has(s[s.len() - 1]));
        assert(shorter.push(s.last()) =~= s);
        assert(split(s, class) =~= seq![s]);
    }
}

/// The pieces that are not empty are picked out of each part of a row.
pub proof fn lemma_non_empty_concat(a: Seq<Seq<char>>, b: Seq<Seq<char>>)
    ensures
        non_empty(a + b) == non_empty(a) + non_empty(b),
    decreases b.len(),
{
    if b.len() == 0 {
        assert(a + b =~= a);
        assert(non_empty(a) + non_empty(b) =~= non_empty(a));
    } else {
        lemma_non_empty_concat(a, b.drop_last());
        assert((a + b).drop_last() =~= a + b.drop_last());
        assert((a + b).last() == b.last());
        assert(non_empty(a + b) =~= non_empty(a) + non_empty(b));
    }
}

/// White space parts the words before it from those after it, however much of it there is.
pub proof fn words_part_at_white_space(before: Seq<char>, space: char, after: Seq<char>)
    requires
        is_white_space(space),
    ensures
        words(before.push(space) + after) == words(before) + words(after),
{
    let class = CharClass::WhiteSpace;
    splitting_parts_at_separators(before, space, after, class);
    lemma_non_empty_concat(split(before, class), split(after, class));
}

/// A text without white space is one word, or none where it is empty.
pub proof fn word_stays_whole(word: Seq<char>)
    requires
        forall|i: int| 0 <= i < word.len() ==> !is_white_space(#[trigger] word[i]),
    ensures
        words(word) == if word.len() > 0 {
            seq![word]
        } else {
            Seq::empty()
        },
{
    splitting_keeps_a_piece(word, CharClass::WhiteSpace);
    let pieces = seq![word];
    assert(pieces.drop_last() =~= Seq::<Seq<char>>::empty());
    assert(pieces.last() == word);
    reveal_with_fuel(non_empty, 2);
    assert(Seq::<Seq<char>>::empty().push(word) =~= seq![word]);
    assert(words(word) =~= if word.len() > 0 {
        seq![word]
    } else {
        Seq::empty()
    });
}

/// Splitting once parts a text at the first character of the class, and at no other.
pub proof fn splitting_once_parts_at_first(
    before: Seq<char>,
    separator: char,
    after: Seq<char>,
    class: CharClass,
)
    requires
        class.has(separator),
        forall|i: int| 0 <= i < before.len() ==> !class.has(#[trigger] before[i]),
    ensures
        split_once(before.push(separator) + after, class) == Some((before, after)),
        split_once(before, class) is None,
{
    let whole = before.push(separator) + after;
    assert forall|j: int| 0 <= j < before.len() implies !class.has(#[trigger] whole[j]) by {
        assert(whole[j] == before[j]);
    }
    assert(whole[before.len() as int] == separator);
    lemma_first_at(whole, class, before.len() as int);
    lemma_first_at(before, class, before.len() as int);
    assert(whole.take(before.len() as int) =~= before);
    assert(whole.skip(before.len() as int + 1) =~= after);
}

/// Lower case changes the capital letters of ASCII to their small letters, and nothing else.
pub proof fn lower_changes_capitals_alone(s: Seq<char>, i: int)
    requires
        0 <= i < s.len(),
    ensures
        lower(s).len() == s.len(),
        'A' <= s[i] <= 'Z' ==> lower(s)[i] as int - 'a' as int == s[i] as int - 'A' as int,
        !('A' <= s[i] <= 'Z') ==> lower(s)[i] == s[i],
        'a' <= s[i] <= 'z' ==> upper(s)[i] as int - 'A' as int == s[i] as int - 'a' as int,
        !('a' <= s[i] <= 'z') ==> upper(s)[i] == s[i],
        upper(s).len() == s.len(),
{
}

/// Lower case is taken of each part of a text.
pub proof fn lemma_lower_concat(a: Seq<char>, b: Seq<char>)
    ensures
        lower(a + b) == lower(a) + lower(b),
{
    assert(lower(a + b) =~= lower(a) + lower(b));
}

/// A text occurs in every text that has it for a part.
pub proof fn part_occurs(before: Seq<char>, part: Seq<char>, after: Seq<char>)
    ensures
        occurs_in(part, before + part + after),
{
    let whole = before + part + after;
    let i = before.len() as int;
    assert(whole.subrange(i, i + part.len()) =~= part);
}

/// A text that occurs in another is a part of it.
pub proof fn what_occurs_is_a_part(part: Seq<char>, whole: Seq<char>) -> (around: (
    Seq<char>,
    Seq<char>,
))
    requires
        occurs_in(part, whole),
    ensures
        whole == around.0 + part + around.1,
{
    let i = choose|i: int|
        0 <= i <= whole.len() - part.len() && #[trigger] whole.subrange(i, i + part.len()) == part;
    let around = (whole.take(i), whole.skip(i + part.len()));
    assert(whole =~= around.0 + whole.subrange(i, i + part.len()) + around.1);
    around
}

/// Joined rows are joined by one more separator.
pub proof fn joining_puts_separators_between(
    a: Seq<Seq<char>>,
    b: Seq<Seq<char>>,
    separator: Seq<char>,
)
    requires
        a.len() > 0,
        b.len() > 0,
    ensures
        joined(a + b, separator) == joined(a, separator) + separator + joined(b, separator),
        joined(seq![a[0]], separator) == a[0],
        joined(Seq::empty(), separator) == Seq::<char>::empty(),
    decreases b.len(),
{
    assert((a + b).drop_last() =~= a + b.drop_last());
    assert((a + b).last() == b.last());
    if b.len() == 1 {
        assert(a + b.drop_last() =~= a);
        assert(b[0] == b.last());
    } else {
        joining_puts_separators_between(a, b.drop_last(), separator);
        assert(joined(a + b, separator) =~= joined(a, separator) + separator + joined(
            b,
            separator,
        ));
    }
}

/// The ten digits.
pub open spec fn ten_digits() -> Seq<char> {
    seq!['0', '1', '2', '3', '4', '5', '6', '7', '8', '9']
}

/// A number is written in decimal digit by digit, without leading zeros.
pub proof fn decimal_is_written_by_digit(n: nat, d: nat)
    requires
        d < 10,
    ensures
        decimal(d) == seq![ten_digits()[d as int]],
        n > 0 ==> decimal(10 * n + d) == decimal(n).push(ten_digits()[d as int]),
{
    assert((10 * n + d) / 10 == n && (10 * n + d) % 10 == d);
    assert(digit_char(d) == ten_digits()[d as int]);
}

/// What a further digit makes of a number: so many times the number, and the digit. Sixteen digits
/// count in either case.
pub proof fn digits_add_up(s: Seq<char>, c: char, radix: nat)
    requires
        2 <= radix <= 16,
        s.len() > 0,
        s != seq!['+'],
    ensures
        unsigned_value(s.push(c), radix) == match (unsigned_value(s, radix), digit_value(c, radix)) {
            (Some(high), Some(low)) => if high * radix + low <= u64::MAX {
                Some((high * radix + low) as nat)
            } else {
                None
            },
            _ => None,
        },
        '0' <= c <= '9' && (c as int - '0' as int) < radix ==> digit_value(c, radix) == Some(
            (c as int - '0' as int) as nat,
        ),
        'a' <= c <= 'f' && c as int - 'a' as int + 10 < radix ==> digit_value(c, radix) == Some(
            (c as int - 'a' as int + 10) as nat,
        ),
        'A' <= c <= 'F' && c as int - 'A' as int + 10 < radix ==> digit_value(c, radix) == Some(
            (c as int - 'A' as int + 10) as nat,
        ),
        !('0' <= c <= '9' || 'a' <= c <= 'f' || 'A' <= c <= 'F') ==> digit_value(c, radix) is None,
{
    let whole = s.push(c);
    assert(whole[0] == s[0]);
    let digits = if s[0] == '+' {
        s.skip(1)
    } else {
        s
    };
    if s[0] == '+' {
        assert(whole.skip(1) =~= digits.push(c));
        if digits.len() == 0 {
            assert(s =~= seq!['+']);
        }
    }
    assert(digits.push(c).drop_last() =~= digits);
    if let (Some(high), Some(low)) = (digits_value(digits, radix), digit_value(c, radix)) {
        assert(high <= high * radix) by (nonlinear_arith)
            requires
                radix >= 2,
        ;
    }
}

/// A single digit is its own number, with or without a plus sign before it; a plus sign before a
/// number changes nothing, and alone it is no number.
pub proof fn digits_begin(s: Seq<char>, c: char, radix: nat)
    requires
        2 <= radix <= 16,
    ensures
        unsigned_value(seq![c], radix) == digit_value(c, radix),
        s.len() > 0 && s[0] != '+' ==> unsigned_value(seq!['+'] + s, radix) == unsigned_value(
            s,
            radix,
        ),
        unsigned_value(seq!['+'], radix) is None,
        unsigned_value(Seq::empty(), radix) is None,
{
    reveal_with_fuel(digits_value, 2);
    let one = seq![c];
    assert(one.drop_last() =~= Seq::<char>::empty());
    assert(one.last() == c);
    assert(0 * radix == 0) by (nonlinear_arith);
    assert((seq!['+'] + s).skip(1) =~= s);
    if c == '+' {
        assert(one.skip(1) =~= Seq::<char>::empty());
    }
    assert(seq!['+'].skip(1) =~= Seq::<char>::empty());
}

/// A number that is written in decimal is read as that number.
pub proof fn decimal_is_read_back(n: nat)
    requires
        n <= u64::MAX,
    ensures
        unsigned_value(decimal(n), 10) == Some(n),
        decimal(n).len() > 0,
        '0' <= decimal(n)[0] <= '9',
        '0' <= decimal(n).last() <= '9',
    decreases n,
{
    if n < 10 {
        digits_begin(Seq::empty(), digit_char(n), 10);
        assert(decimal(n) =~= seq![digit_char(n)]);
    } else {
        decimal_is_read_back(n / 10);
        digits_add_up(decimal(n / 10), digit_char(n % 10), 10);
        assert(decimal(n / 10)[0] != '+');
        assert(n / 10 * 10 + n % 10 == n);
    }
}

/// A trimmed text is a part of the text.
pub proof fn lemma_trim_position(s: Seq<char>, class: CharClass)
    ensures
        occurs_in(trim_class(s, class), s),
{
    let start = trim_start(s, class);
    let core = trim_class(s, class);
    lemma_trim_start_is_part(s, class);
    lemma_trim_end(start, class);
    let from = s.len() - start.len();
    assert forall|j: int| 0 <= j < core.len() implies #[trigger] core[j] == s[from + j] by {
        assert(core[j] == start[j]);
    }
    assert(s.subrange(from, from + core.len()) =~= core);
}

/// Before the first character of a class there is none, and where there is one it is of the class.
pub proof fn lemma_first_is_first(s: Seq<char>, class: CharClass)
    ensures
        first_at(s, class) <= s.len(),
        first_at(s, class) < s.len() ==> class.has(s[first_at(s, class) as int]),
        forall|j: int| 0 <= j < first_at(s, class) ==> !class.has(#[trigger] s[j]),
    decreases s.len(),
{
    if s.len() > 0 && !class.has(s[0]) {
        let rest = s.drop_first();
        lemma_first_is_first(rest, class);
        assert forall|j: int| 0 <= j < first_at(s, class) implies !class.has(#[trigger] s[j]) by {
            if j > 0 {
                assert(rest[j - 1] == s[j]);
            }
        }
    }
}

} // verus!
