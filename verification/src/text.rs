//! Text primitives: the ASCII and whitespace rules, splitting, and decimal and
//! hexadecimal rendering that the configuration, key names and wire formats
//! are written in. Every function states its result over `Seq<char>`.

use vstd::prelude::*;

verus! {

broadcast use {vstd::seq::group_seq_axioms, vstd::string::group_string_axioms};

/// `String::push`: appends one character and changes nothing else.
pub assume_specification[ String::push ](s: &mut String, c: char)
    ensures
        final(s)@ == old(s)@.push(c),
;

// ---------------------------------------------------------------------------
// Characters
// ---------------------------------------------------------------------------

/// `A`..`Z` mapped to `a`..`z`, everything else unchanged.
pub open spec fn ascii_lower(c: char) -> char {
    if 'A' <= c && c <= 'Z' {
        ((c as u32 + 32) as u8) as char
    } else {
        c
    }
}

/// `a`..`z` mapped to `A`..`Z`, everything else unchanged.
pub open spec fn ascii_upper(c: char) -> char {
    if 'a' <= c && c <= 'z' {
        ((c as u32 - 32) as u8) as char
    } else {
        c
    }
}

/// Unicode `White_Space`.
pub open spec fn is_white(c: char) -> bool {
    ||| '\u{9}' <= c && c <= '\u{d}'
    ||| c == ' '
    ||| c == '\u{85}'
    ||| c == '\u{a0}'
    ||| c == '\u{1680}'
    ||| '\u{2000}' <= c && c <= '\u{200a}'
    ||| c == '\u{2028}'
    ||| c == '\u{2029}'
    ||| c == '\u{202f}'
    ||| c == '\u{205f}'
    ||| c == '\u{3000}'
}

/// Whether `c` is Unicode `White_Space`.
pub fn char_is_white(c: char) -> (r: bool)
    ensures
        r == is_white(c),
{
    ('\u{9}' <= c && c <= '\u{d}') || c == ' ' || c == '\u{85}' || c == '\u{a0}' || c == '\u{1680}'
        || ('\u{2000}' <= c && c <= '\u{200a}') || c == '\u{2028}' || c == '\u{2029}' || c
        == '\u{202f}' || c == '\u{205f}' || c == '\u{3000}'
}

/// ASCII lowercase of one character.
pub fn char_lower(c: char) -> (r: char)
    ensures
        r == ascii_lower(c),
{
    if 'A' <= c && c <= 'Z' {
        ((c as u8) + 32u8) as char
    } else {
        c
    }
}

/// ASCII uppercase of one character.
pub fn char_upper(c: char) -> (r: char)
    ensures
        r == ascii_upper(c),
{
    if 'a' <= c && c <= 'z' {
        ((c as u8) - 32u8) as char
    } else {
        c
    }
}

// ---------------------------------------------------------------------------
// Whole texts
// ---------------------------------------------------------------------------

/// The contents of a list of strings.
pub open spec fn texts(list: Seq<String>) -> Seq<Seq<char>> {
    Seq::new(list.len(), |i: int| list[i]@)
}

/// ASCII-lowercased text.
pub open spec fn lower(s: Seq<char>) -> Seq<char> {
    Seq::new(s.len(), |i: int| ascii_lower(s[i]))
}

/// ASCII-uppercased text.
pub open spec fn upper(s: Seq<char>) -> Seq<char> {
    Seq::new(s.len(), |i: int| ascii_upper(s[i]))
}

/// Text without its leading whitespace.
pub open spec fn trim_start(s: Seq<char>) -> Seq<char>
    decreases s.len(),
{
    if s.len() > 0 && is_white(s[0]) {
        trim_start(s.drop_first())
    } else {
        s
    }
}

/// Text without its trailing whitespace.
pub open spec fn trim_end(s: Seq<char>) -> Seq<char>
    decreases s.len(),
{
    if s.len() > 0 && is_white(s.last()) {
        trim_end(s.drop_last())
    } else {
        s
    }
}

/// Text without its leading and trailing whitespace.
pub open spec fn trim(s: Seq<char>) -> Seq<char> {
    trim_end(trim_start(s))
}

/// Nothing but whitespace, or nothing at all.
pub open spec fn is_blank(s: Seq<char>) -> bool {
    forall|i: int| 0 <= i < s.len() ==> is_white(#[trigger] s[i])
}

/// The pieces of `s` between the separators: always one more than there are
/// separators.
pub open spec fn split(s: Seq<char>, sep: char) -> Seq<Seq<char>>
    decreases s.len(),
{
    if s.len() == 0 {
        seq![Seq::<char>::empty()]
    } else {
        let init = split(s.drop_last(), sep);
        if s.last() == sep {
            init.push(Seq::<char>::empty())
        } else {
            init.drop_last().push(init.last().push(s.last()))
        }
    }
}

/// The words of `s`: its maximal runs of non-whitespace, paired with whether
/// the last of them still touches the end of the text.
pub open spec fn words_open(s: Seq<char>) -> (Seq<Seq<char>>, bool)
    decreases s.len(),
{
    if s.len() == 0 {
        (Seq::<Seq<char>>::empty(), false)
    } else {
        let (init, touching) = words_open(s.drop_last());
        if is_white(s.last()) {
            (init, false)
        } else if touching {
            (init.drop_last().push(init.last().push(s.last())), true)
        } else {
            (init.push(seq![s.last()]), true)
        }
    }
}

/// The maximal runs of non-whitespace in `s`, in order.
pub open spec fn words(s: Seq<char>) -> Seq<Seq<char>> {
    words_open(s).0
}

/// `prefix` stands at the beginning of `s`.
pub open spec fn starts_with(s: Seq<char>, prefix: Seq<char>) -> bool {
    prefix.len() <= s.len() && s.take(prefix.len() as int) == prefix
}

/// Equal once ASCII letter case is ignored.
pub open spec fn same_ignoring_case(a: Seq<char>, b: Seq<char>) -> bool {
    lower(a) == lower(b)
}

/// Leading whitespace makes no difference to a trimmed text.
proof fn lemma_trim_start_pad(pad: Seq<char>, s: Seq<char>)
    requires
        is_blank(pad),
    ensures
        trim_start(pad + s) == trim_start(s),
    decreases pad.len(),
{
    if pad.len() == 0 {
        assert(pad + s =~= s);
    } else {
        assert((pad + s)[0] == pad[0]);
        assert((pad + s).drop_first() =~= pad.drop_first() + s);
        lemma_trim_start_pad(pad.drop_first(), s);
    }
}

proof fn lemma_trim_end_pad(s: Seq<char>, pad: Seq<char>)
    requires
        is_blank(pad),
    ensures
        trim_end(s + pad) == trim_end(s),
    decreases pad.len(),
{
    if pad.len() == 0 {
        assert(s + pad =~= s);
    } else {
        assert((s + pad).last() == pad.last());
        assert((s + pad).drop_last() =~= s + pad.drop_last());
        lemma_trim_end_pad(s, pad.drop_last());
    }
}

proof fn lemma_trim_start_keeps_pad(s: Seq<char>, pad: Seq<char>)
    requires
        !is_blank(s),
    ensures
        trim_start(s + pad) == trim_start(s) + pad,
    decreases s.len(),
{
    assert((s + pad)[0] == s[0]);
    if is_white(s[0]) {
        assert((s + pad).drop_first() =~= s.drop_first() + pad);
        let i = choose|i: int| 0 <= i < s.len() && !is_white(#[trigger] s[i]);
        assert(s.drop_first()[i - 1] == s[i]);
        lemma_trim_start_keeps_pad(s.drop_first(), pad);
    }
}

/// Whitespace around a text makes no difference once it is trimmed.
pub proof fn law_padding_is_trimmed(before: Seq<char>, s: Seq<char>, after: Seq<char>)
    requires
        is_blank(before),
        is_blank(after),
    ensures
        trim(before + s + after) == trim(s),
{
    assert(before + s + after =~= before + (s + after));
    lemma_trim_start_pad(before, s + after);
    if is_blank(s) {
        assert(is_blank(s + after));
        law_blank_trims_to_nothing(s + after);
        law_blank_trims_to_nothing(s);
        assert(trim(s + after) =~= trim(s));
    } else {
        lemma_trim_start_keeps_pad(s, after);
        lemma_trim_end_pad(trim_start(s), after);
    }
}

proof fn lemma_lower_start(s: Seq<char>)
    ensures
        trim_start(lower(s)) == lower(trim_start(s)),
    decreases s.len(),
{
    if s.len() > 0 && is_white(s[0]) {
        assert(lower(s).drop_first() =~= lower(s.drop_first()));
        lemma_lower_start(s.drop_first());
    }
}

proof fn lemma_lower_end(s: Seq<char>)
    ensures
        trim_end(lower(s)) == lower(trim_end(s)),
    decreases s.len(),
{
    if s.len() > 0 && is_white(s.last()) {
        assert(lower(s).drop_last() =~= lower(s.drop_last()));
        lemma_lower_end(s.drop_last());
    }
}

/// Trimming and lowercasing can be done in either order.
pub proof fn lemma_trim_lower(s: Seq<char>)
    ensures
        trim(lower(s)) == lower(trim(s)),
{
    lemma_lower_start(s);
    lemma_lower_end(trim_start(s));
}

/// Lowercasing a text lowercases its pieces, between separators that are no
/// letters.
pub proof fn lemma_split_lower(s: Seq<char>, sep: char)
    requires
        !('A' <= sep && sep <= 'Z'),
        !('a' <= sep && sep <= 'z'),
    ensures
        split(lower(s), sep).len() == split(s, sep).len(),
        forall|i: int|
            0 <= i < split(s, sep).len() ==> #[trigger] split(lower(s), sep)[i] == lower(
                split(s, sep)[i],
            ),
    decreases s.len(),
{
    lemma_split_nonempty(s, sep);
    if s.len() == 0 {
        assert(lower(s) =~= s);
        assert(lower(Seq::<char>::empty()) =~= Seq::<char>::empty());
    } else {
        let init = s.drop_last();
        lemma_split_lower(init, sep);
        lemma_split_nonempty(init, sep);
        assert(lower(s).drop_last() =~= lower(init));
        assert(lower(s).last() == ascii_lower(s.last()));
        assert((ascii_lower(s.last()) == sep) == (s.last() == sep));
        let (a, b) = (split(lower(s), sep), split(s, sep));
        let (x, y) = (split(lower(init), sep), split(init, sep));
        assert forall|i: int| 0 <= i < b.len() implies #[trigger] a[i] == lower(b[i]) by {
            if s.last() == sep {
                if i < y.len() {
                    assert(a[i] == x[i]);
                } else {
                    assert(a[i] =~= lower(b[i]));
                }
            } else if i < b.len() - 1 {
                assert(a[i] == x[i]);
            } else {
                assert(x[i] == lower(y[i]));
                assert(a[i] =~= lower(b[i]));
            }
        }
    }
}

/// `split` never returns an empty list.
pub proof fn lemma_split_nonempty(s: Seq<char>, sep: char)
    ensures
        split(s, sep).len() >= 1,
    decreases s.len(),
{
    if s.len() > 0 {
        lemma_split_nonempty(s.drop_last(), sep);
    }
}

/// Words are never empty, and a text that is not blank has one.
pub proof fn lemma_words_of_text(s: Seq<char>)
    ensures
        forall|i: int| 0 <= i < words(s).len() ==> (#[trigger] words(s)[i]).len() > 0,
        !is_blank(s) ==> words(s).len() > 0,
        words_open(s).1 ==> words(s).len() > 0,
    decreases s.len(),
{
    if s.len() > 0 {
        let init = s.drop_last();
        lemma_words_of_text(init);
        let before = words(init);
        assert forall|i: int| 0 <= i < words(s).len() implies (#[trigger] words(s)[i]).len() > 0 by {
            if i < before.len() {
                assert(before[i].len() > 0);
            }
        }
        if is_white(s.last()) && is_blank(init) {
            assert forall|i: int| 0 <= i < s.len() implies is_white(#[trigger] s[i]) by {
                if i < init.len() {
                    assert(init[i] == s[i]);
                }
            }
        }
    }
}

/// Trimming leaves nothing, or something that is not blank.
pub proof fn lemma_trim_is_not_blank(s: Seq<char>)
    ensures
        trim(s).len() > 0 ==> !is_blank(trim(s)),
{
    lemma_trim_end_stops(trim_start(s));
}

proof fn lemma_trim_end_stops(s: Seq<char>)
    ensures
        trim_end(s).len() > 0 ==> !is_white(trim_end(s).last()),
    decreases s.len(),
{
    if s.len() > 0 {
        lemma_trim_end_stops(s.drop_last());
    }
}

/// The characters of a text as a vector.
pub fn chars_of(s: &str) -> (r: Vec<char>)
    ensures
        r@ == s@,
{
    let mut v: Vec<char> = Vec::new();
    for c in it: s.chars()
        invariant
            v@ == s@.take(it.index()),
            it.seq() == s@,
    {
        assert(s@.take(it.index() + 1) =~= s@.take(it.index()).push(c));
        v.push(c);
    }
    assert(s@.take(s@.len() as int) =~= s@);
    v
}

/// The text made of the characters `v[from..to]`.
pub fn string_of(v: &Vec<char>, from: usize, to: usize) -> (r: String)
    requires
        from <= to <= v@.len(),
    ensures
        r@ == v@.subrange(from as int, to as int),
{
    let mut out = String::new();
    let mut i: usize = from;
    while i < to
        invariant
            from <= i <= to <= v@.len(),
            out@ == v@.subrange(from as int, i as int),
        decreases to - i,
    {
        out.push(v[i]);
        assert(v@.subrange(from as int, i + 1) =~= v@.subrange(from as int, i as int).push(v@[i as int]));
        i = i + 1;
    }
    out
}

/// Whether two texts hold the same characters.
pub fn str_eq(a: &str, b: &str) -> (r: bool)
    ensures
        r == (a@ == b@),
{
    let x = chars_of(a);
    let y = chars_of(b);
    if x.len() != y.len() {
        return false;
    }
    let mut i: usize = 0;
    while i < x.len()
        invariant
            x@ == a@,
            y@ == b@,
            i <= x@.len() == y@.len(),
            forall|j: int| 0 <= j < i ==> x@[j] == y@[j],
        decreases x@.len() - i,
    {
        if x[i] != y[i] {
            return false;
        }
        i = i + 1;
    }
    assert(a@ =~= b@);
    true
}

/// Whether two texts are equal once ASCII letter case is ignored.
pub fn eq_ignore_case(a: &str, b: &str) -> (r: bool)
    ensures
        r == same_ignoring_case(a@, b@),
{
    let x = chars_of(a);
    let y = chars_of(b);
    if x.len() != y.len() {
        assert(lower(a@).len() != lower(b@).len());
        return false;
    }
    let mut i: usize = 0;
    while i < x.len()
        invariant
            x@ == a@,
            y@ == b@,
            i <= x@.len() == y@.len(),
            forall|j: int| 0 <= j < i ==> ascii_lower(x@[j]) == ascii_lower(y@[j]),
        decreases x@.len() - i,
    {
        if char_lower(x[i]) != char_lower(y[i]) {
            assert(lower(a@)[i as int] != lower(b@)[i as int]);
            return false;
        }
        i = i + 1;
    }
    assert(lower(a@) =~= lower(b@));
    true
}

/// Whether `prefix` stands at the beginning of `s`.
pub fn str_starts_with(s: &str, prefix: &str) -> (r: bool)
    ensures
        r == starts_with(s@, prefix@),
{
    let x = chars_of(s);
    let y = chars_of(prefix);
    if x.len() < y.len() {
        return false;
    }
    let mut i: usize = 0;
    while i < y.len()
        invariant
            x@ == s@,
            y@ == prefix@,
            i <= y@.len() <= x@.len(),
            forall|j: int| 0 <= j < i ==> x@[j] == y@[j],
        decreases y@.len() - i,
    {
        if x[i] != y[i] {
            assert(s@.take(y@.len() as int)[i as int] != prefix@[i as int]);
            return false;
        }
        i = i + 1;
    }
    assert(s@.take(y@.len() as int) =~= prefix@);
    true
}

/// ASCII-lowercased copy.
pub fn to_lower(s: &str) -> (r: String)
    ensures
        r@ == lower(s@),
{
    let v = chars_of(s);
    let mut out = String::new();
    let mut i: usize = 0;
    while i < v.len()
        invariant
            v@ == s@,
            i <= v@.len(),
            out@ == lower(s@.take(i as int)),
        decreases v@.len() - i,
    {
        out.push(char_lower(v[i]));
        assert(lower(s@.take(i + 1)) =~= lower(s@.take(i as int)).push(ascii_lower(s@[i as int])));
        i = i + 1;
    }
    assert(s@.take(i as int) =~= s@);
    out
}

/// ASCII-uppercased copy.
pub fn to_upper(s: &str) -> (r: String)
    ensures
        r@ == upper(s@),
{
    let v = chars_of(s);
    let mut out = String::new();
    let mut i: usize = 0;
    while i < v.len()
        invariant
            v@ == s@,
            i <= v@.len(),
            out@ == upper(s@.take(i as int)),
        decreases v@.len() - i,
    {
        out.push(char_upper(v[i]));
        assert(upper(s@.take(i + 1)) =~= upper(s@.take(i as int)).push(ascii_upper(s@[i as int])));
        i = i + 1;
    }
    assert(s@.take(i as int) =~= s@);
    out
}

/// Copy without leading and trailing whitespace.
pub fn trimmed(s: &str) -> (r: String)
    ensures
        r@ == trim(s@),
{
    let v = chars_of(s);
    let mut from: usize = 0;
    assert(v@.skip(0) =~= v@);
    while from < v.len() && char_is_white(v[from])
        invariant
            v@ == s@,
            from <= v@.len(),
            trim_start(v@.skip(from as int)) == trim_start(s@),
        decreases v@.len() - from,
    {
        assert(v@.skip(from as int).drop_first() =~= v@.skip(from + 1));
        from = from + 1;
    }
    let ghost body = v@.skip(from as int);
    assert(trim_start(s@) == body);
    let mut to: usize = v.len();
    assert(v@.subrange(from as int, to as int) =~= body);
    while to > from && char_is_white(v[to - 1])
        invariant
            v@ == s@,
            from <= to <= v@.len(),
            trim_end(v@.subrange(from as int, to as int)) == trim_end(body),
        decreases to,
    {
        assert(v@.subrange(from as int, to as int).drop_last() =~= v@.subrange(from as int, to - 1));
        to = to - 1;
    }
    string_of(&v, from, to)
}

/// Whether the text holds nothing but whitespace.
pub fn blank(s: &str) -> (r: bool)
    ensures
        r == is_blank(s@),
{
    let v = chars_of(s);
    let mut i: usize = 0;
    while i < v.len()
        invariant
            v@ == s@,
            i <= v@.len(),
            forall|j: int| 0 <= j < i ==> is_white(#[trigger] s@[j]),
        decreases v@.len() - i,
    {
        if !char_is_white(v[i]) {
            assert(!is_white(s@[i as int]));
            return false;
        }
        i = i + 1;
    }
    true
}

/// A text is blank exactly when trimming leaves nothing of it.
pub proof fn law_blank_trims_to_nothing(s: Seq<char>)
    ensures
        is_blank(s) <==> trim(s).len() == 0,
    decreases s.len(),
{
    if s.len() == 0 {
    } else if is_white(s[0]) {
        law_blank_trims_to_nothing(s.drop_first());
        assert(is_blank(s) <==> is_blank(s.drop_first())) by {
            if is_blank(s) {
                assert forall|i: int| 0 <= i < s.drop_first().len() implies is_white(#[trigger] s.drop_first()[i]) by {
                    assert(is_white(s[i + 1]));
                }
            }
            if is_blank(s.drop_first()) {
                assert forall|i: int| 0 <= i < s.len() implies is_white(#[trigger] s[i]) by {
                    if i > 0 {
                        assert(is_white(s.drop_first()[i - 1]));
                    }
                }
            }
        }
    } else {
        lemma_trim_end_keeps(s);
        assert(!is_white(s[0]));
    }
}

/// Trimming the end never reaches past a leading non-whitespace character.
proof fn lemma_trim_end_keeps(s: Seq<char>)
    requires
        s.len() > 0,
        !is_white(s[0]),
    ensures
        trim_end(s).len() > 0,
    decreases s.len(),
{
    if is_white(s.last()) {
        lemma_trim_end_keeps(s.drop_last());
    }
}

/// The pieces of `s` between the separators.
pub fn split_on(s: &str, sep: char) -> (r: Vec<String>)
    ensures
        texts(r@) == split(s@, sep),
{
    let v = chars_of(s);
    let mut out: Vec<String> = Vec::new();
    let mut piece = String::new();
    let mut i: usize = 0;
    assert(split(s@.take(0), sep) =~= seq![Seq::<char>::empty()]);
    assert(texts(out@).push(piece@) =~= seq![Seq::<char>::empty()]);
    while i < v.len()
        invariant
            v@ == s@,
            i <= v@.len(),
            texts(out@).push(piece@) == split(s@.take(i as int), sep),
        decreases v@.len() - i,
    {
        let ghost before = split(s@.take(i as int), sep);
        assert(s@.take(i + 1).drop_last() =~= s@.take(i as int));
        assert(before.drop_last() =~= texts(out@));
        if v[i] == sep {
            let ghost list = out@;
            out.push(piece);
            piece = String::new();
            assert(texts(out@) =~= before);
        } else {
            piece.push(v[i]);
        }
        i = i + 1;
    }
    let ghost list = out@;
    out.push(piece);
    assert(texts(out@) =~= texts(list).push(piece@));
    assert(s@.take(i as int) =~= s@);
    out
}

/// The maximal runs of non-whitespace, in order.
pub fn split_words(s: &str) -> (r: Vec<String>)
    ensures
        texts(r@) == words(s@),
{
    let v = chars_of(s);
    let mut out: Vec<String> = Vec::new();
    let mut word = String::new();
    let mut touching = false;
    let mut i: usize = 0;
    assert(texts(out@) =~= Seq::<Seq<char>>::empty());
    while i < v.len()
        invariant
            v@ == s@,
            i <= v@.len(),
            touching == words_open(s@.take(i as int)).1,
            touching ==> texts(out@).push(word@) == words_open(s@.take(i as int)).0,
            !touching ==> texts(out@) == words_open(s@.take(i as int)).0 && word@.len() == 0,
        decreases v@.len() - i,
    {
        let ghost before = words_open(s@.take(i as int)).0;
        assert(s@.take(i + 1).drop_last() =~= s@.take(i as int));
        if char_is_white(v[i]) {
            if touching {
                let ghost list = out@;
                out.push(word);
                assert(texts(out@) =~= texts(list).push(word@));
                word = String::new();
                touching = false;
            }
        } else {
            assert(word@.push(v@[i as int]) =~= if touching { before.last().push(s@[i as int]) } else { seq![s@[i as int]] });
            assert(touching ==> before.drop_last() =~= texts(out@));
            word.push(v[i]);
            touching = true;
        }
        i = i + 1;
    }
    if touching {
        let ghost list = out@;
        out.push(word);
        assert(texts(out@) =~= texts(list).push(word@));
    }
    assert(s@.take(i as int) =~= s@);
    out
}

// ---------------------------------------------------------------------------
// Numbers
// ---------------------------------------------------------------------------

/// The decimal digit `n`.
pub open spec fn digit_char(n: int) -> char
    recommends
        0 <= n < 10,
{
    ((48 + n) as u8) as char
}

/// The decimal spelling of `n`, without leading zeros.
pub open spec fn decimal(n: nat) -> Seq<char>
    decreases n,
{
    if n < 10 {
        seq![digit_char(n as int)]
    } else {
        decimal(n / 10).push(digit_char((n % 10) as int))
    }
}

/// The value of a run of decimal digits.
pub open spec fn digits_value(s: Seq<char>) -> nat
    decreases s.len(),
{
    if s.len() == 0 {
        0
    } else {
        (digits_value(s.drop_last()) * 10 + (s.last() as u32 - 48)) as nat
    }
}

/// Nothing but decimal digits, at least one.
pub open spec fn is_digits(s: Seq<char>) -> bool {
    s.len() > 0 && forall|i: int| 0 <= i < s.len() ==> '0' <= #[trigger] s[i] && s[i] <= '9'
}

/// What a whole number's text denotes: digits, optionally after one `+`.
pub open spec fn number_text(s: Seq<char>) -> Seq<char> {
    if s.len() > 0 && s[0] == '+' {
        s.drop_first()
    } else {
        s
    }
}

/// The number a text spells, if it spells one that fits.
pub open spec fn parsed_u64(s: Seq<char>) -> Option<u64> {
    let digits = number_text(s);
    if is_digits(digits) && digits_value(digits) <= u64::MAX {
        Some(digits_value(digits) as u64)
    } else {
        None
    }
}

/// The lowercase hexadecimal digit `n`.
pub open spec fn hex_char(n: int) -> char
    recommends
        0 <= n < 16,
{
    if n < 10 {
        ((48 + n) as u8) as char
    } else {
        ((87 + n) as u8) as char
    }
}

/// Two lowercase hexadecimal digits per byte.
pub open spec fn hex_lower(bytes: Seq<u8>) -> Seq<char> {
    Seq::new(2 * bytes.len(), |i: int|
        if i % 2 == 0 {
            hex_char((bytes[i / 2] / 16) as int)
        } else {
            hex_char((bytes[i / 2] % 16) as int)
        })
}

/// The value of a hexadecimal digit of either case.
pub open spec fn hex_value(c: char) -> Option<u8> {
    if '0' <= c && c <= '9' {
        Some((c as u32 - 48) as u8)
    } else if 'a' <= c && c <= 'f' {
        Some((c as u32 - 87) as u8)
    } else if 'A' <= c && c <= 'F' {
        Some((c as u32 - 55) as u8)
    } else {
        None
    }
}

/// The decimal spelling of `n`.
pub fn decimal_of(n: u64) -> (r: String)
    ensures
        r@ == decimal(n as nat),
    decreases n,
{
    if n < 10 {
        let mut out = String::new();
        out.push((48u8 + n as u8) as char);
        assert(out@ =~= seq![digit_char(n as int)]);
        out
    } else {
        let mut out = decimal_of(n / 10);
        out.push((48u8 + (n % 10) as u8) as char);
        out
    }
}

/// Longer digit runs denote at least as much.
proof fn lemma_digits_monotone(s: Seq<char>, i: int)
    requires
        is_digits(s),
        0 <= i <= s.len(),
    ensures
        digits_value(s.take(i)) <= digits_value(s),
    decreases s.len() - i,
{
    if i < s.len() {
        lemma_digits_monotone(s, i + 1);
        assert(s.take(i + 1).drop_last() =~= s.take(i));
        assert('0' <= s[i]);
    } else {
        assert(s.take(i) =~= s);
    }
}

/// The number a text spells: digits with an optional leading `+`.
pub fn parse_u64(s: &str) -> (r: Option<u64>)
    ensures
        r == parsed_u64(s@),
{
    let v = chars_of(s);
    let start: usize = if v.len() > 0 && v[0] == '+' {
        1
    } else {
        0
    };
    let ghost digits = number_text(s@);
    assert(digits =~= v@.skip(start as int));
    if v.len() == start {
        return None;
    }
    let mut i: usize = start;
    let mut value: u64 = 0;
    while i < v.len()
        invariant
            v@ == s@,
            start <= i <= v@.len(),
            start < v@.len(),
            digits == number_text(s@),
            digits == v@.skip(start as int),
            forall|j: int| 0 <= j < i - start ==> '0' <= #[trigger] digits[j] && digits[j] <= '9',
            value == digits_value(digits.take(i - start)),
        decreases v@.len() - i,
    {
        let c = v[i];
        assert(c == digits[i - start]);
        if c < '0' || c > '9' {
            assert(!is_digits(digits));
            return None;
        }
        let d: u64 = (c as u32 - 48) as u64;
        assert(digits.take(i - start + 1).drop_last() =~= digits.take(i - start));
        if value > (u64::MAX - d) / 10 {
            proof {
                if is_digits(digits) {
                    lemma_digits_monotone(digits, i - start + 1);
                }
            }
            return None;
        }
        value = value * 10 + d;
        i = i + 1;
    }
    assert(digits.take(i - start) =~= digits);
    Some(value)
}

/// One lowercase hexadecimal digit.
pub fn hex_digit(n: u8) -> (r: char)
    requires
        n < 16,
    ensures
        r == hex_char(n as int),
{
    if n < 10 {
        (48u8 + n) as char
    } else {
        (87u8 + n) as char
    }
}

/// The value of a hexadecimal digit of either case.
pub fn hex_digit_value(c: char) -> (r: Option<u8>)
    ensures
        r == hex_value(c),
{
    if '0' <= c && c <= '9' {
        Some((c as u8) - 48u8)
    } else if 'a' <= c && c <= 'f' {
        Some((c as u8) - 87u8)
    } else if 'A' <= c && c <= 'F' {
        Some((c as u8) - 55u8)
    } else {
        None
    }
}

/// Two lowercase hexadecimal digits per byte.
pub fn hex_of(bytes: &[u8]) -> (r: String)
    ensures
        r@ == hex_lower(bytes@),
{
    let mut out = String::new();
    let mut i: usize = 0;
    assert(hex_lower(bytes@.take(0)) =~= Seq::<char>::empty());
    while i < bytes.len()
        invariant
            i <= bytes@.len(),
            out@ == hex_lower(bytes@.take(i as int)),
        decreases bytes@.len() - i,
    {
        let b = bytes[i];
        out.push(hex_digit(b / 16));
        out.push(hex_digit(b % 16));
        assert(hex_lower(bytes@.take(i + 1)) =~= hex_lower(bytes@.take(i as int)).push(
            hex_char((b / 16) as int),
        ).push(hex_char((b % 16) as int)));
        i = i + 1;
    }
    assert(bytes@.take(i as int) =~= bytes@);
    out
}

// ---------------------------------------------------------------------------
// Copies
// ---------------------------------------------------------------------------

/// The content of an optional text.
pub open spec fn opt_text(s: Option<String>) -> Option<Seq<char>> {
    match s {
        Some(t) => Some(t@),
        None => None,
    }
}

/// A copy of a list of texts.
pub fn copy_texts(list: &Vec<String>) -> (r: Vec<String>)
    ensures
        texts(r@) == texts(list@),
        r@.len() == list@.len(),
{
    let mut out: Vec<String> = Vec::new();
    let mut i: usize = 0;
    while i < list.len()
        invariant
            i <= list@.len(),
            out@.len() == i,
            forall|j: int| 0 <= j < i ==> out@[j]@ == list@[j]@,
        decreases list@.len() - i,
    {
        out.push(list[i].clone());
        i = i + 1;
    }
    assert(texts(out@) =~= texts(list@));
    out
}

// ---------------------------------------------------------------------------
// Laws of texts
// ---------------------------------------------------------------------------

/// Case: letters `A` to `Z` lie 32 below `a` to `z`; lowering and raising undo
/// each other on letters and leave everything else alone.
pub proof fn law_letter_case(c: char)
    ensures
        'A' <= c && c <= 'Z' ==> ascii_lower(c) as u32 == c as u32 + 32 && ascii_upper(c) == c
            && ascii_upper(ascii_lower(c)) == c,
        'a' <= c && c <= 'z' ==> ascii_upper(c) as u32 == c as u32 - 32 && ascii_lower(c) == c
            && ascii_lower(ascii_upper(c)) == c,
        !('A' <= c && c <= 'Z') && !('a' <= c && c <= 'z') ==> ascii_lower(c) == c && ascii_upper(c)
            == c,
{
}

/// Lowering or raising a text does so to each of its characters, and texts are
/// the same but for case when each of their characters is.
pub proof fn law_text_case(s: Seq<char>, other: Seq<char>)
    ensures
        lower(s).len() == s.len(),
        upper(s).len() == s.len(),
        forall|i: int| 0 <= i < s.len() ==> #[trigger] lower(s)[i] == ascii_lower(s[i]),
        forall|i: int| 0 <= i < s.len() ==> #[trigger] upper(s)[i] == ascii_upper(s[i]),
        same_ignoring_case(s, other) <==> s.len() == other.len() && (forall|i: int|
            0 <= i < s.len() ==> ascii_lower(#[trigger] s[i]) == ascii_lower(other[i])),
{
    if s.len() == other.len() && (forall|i: int|
        0 <= i < s.len() ==> ascii_lower(#[trigger] s[i]) == ascii_lower(other[i])) {
        assert(lower(s) =~= lower(other));
    }
    if same_ignoring_case(s, other) {
        assert(lower(s).len() == lower(other).len());
        assert forall|i: int| 0 <= i < s.len() implies ascii_lower(#[trigger] s[i]) == ascii_lower(
            other[i],
        ) by {
            assert(lower(s)[i] == lower(other)[i]);
        }
    }
}

proof fn lemma_trim_start_cut(s: Seq<char>) -> (n: int)
    ensures
        0 <= n <= s.len(),
        trim_start(s) == s.skip(n),
        is_blank(s.take(n)),
        trim_start(s).len() > 0 ==> !is_white(trim_start(s)[0]),
    decreases s.len(),
{
    if s.len() > 0 && is_white(s[0]) {
        let n = lemma_trim_start_cut(s.drop_first());
        assert(s.drop_first().skip(n) =~= s.skip(n + 1));
        assert forall|i: int| 0 <= i < n + 1 implies is_white(#[trigger] s.take(n + 1)[i]) by {
            if i > 0 {
                assert(is_white(s.drop_first().take(n)[i - 1]));
            }
        }
        n + 1
    } else {
        assert(s.skip(0) =~= s);
        0
    }
}

proof fn lemma_trim_end_cut(s: Seq<char>) -> (n: int)
    ensures
        0 <= n <= s.len(),
        trim_end(s) == s.take(n),
        is_blank(s.skip(n)),
        trim_end(s).len() > 0 ==> !is_white(trim_end(s).last()),
    decreases s.len(),
{
    if s.len() > 0 && is_white(s.last()) {
        let n = lemma_trim_end_cut(s.drop_last());
        assert(s.drop_last().take(n) =~= s.take(n));
        assert forall|i: int| 0 <= i < s.len() - n implies is_white(#[trigger] s.skip(n)[i]) by {
            if i < s.len() - n - 1 {
                assert(is_white(s.drop_last().skip(n)[i]));
            }
        }
        n
    } else {
        assert(s.take(s.len() as int) =~= s);
        s.len() as int
    }
}

/// A trimmed text stands in the text it came from with nothing but whitespace
/// around it, and neither begins nor ends in whitespace itself.
pub proof fn law_trimming_takes_only_whitespace(s: Seq<char>) -> (cut: (int, int))
    ensures
        0 <= cut.0 <= cut.1 <= s.len(),
        trim(s) == s.subrange(cut.0, cut.1),
        is_blank(s.take(cut.0)),
        is_blank(s.skip(cut.1)),
        trim(s).len() > 0 ==> !is_white(trim(s)[0]) && !is_white(trim(s).last()),
{
    let a = lemma_trim_start_cut(s);
    let t = trim_start(s);
    let n = lemma_trim_end_cut(t);
    assert(trim(s) =~= s.subrange(a, a + n));
    assert(s.skip(a + n) =~= t.skip(n));
    (a, a + n)
}

/// The pieces of a list with a separator between them.
pub open spec fn joined(pieces: Seq<Seq<char>>, sep: char) -> Seq<char>
    decreases pieces.len(),
{
    if pieces.len() == 0 {
        Seq::empty()
    } else if pieces.len() == 1 {
        pieces[0]
    } else {
        joined(pieces.drop_last(), sep) + seq![sep] + pieces.last()
    }
}

proof fn lemma_joined_push(pieces: Seq<Seq<char>>, c: char, sep: char)
    requires
        pieces.len() > 0,
    ensures
        joined(pieces.drop_last().push(pieces.last().push(c)), sep) == joined(pieces, sep).push(c),
        joined(pieces.push(Seq::empty()), sep) == joined(pieces, sep).push(sep),
{
    let more = pieces.drop_last().push(pieces.last().push(c));
    assert(more.drop_last() =~= pieces.drop_last());
    assert(joined(more, sep) =~= joined(pieces, sep).push(c));
    let opened = pieces.push(Seq::<char>::empty());
    assert(opened.drop_last() =~= pieces);
    assert(joined(opened, sep) =~= joined(pieces, sep).push(sep));
}

/// Pieces put together again with the separator give the text they were split
/// from, and none of them holds the separator.
pub proof fn law_split_pieces_join(s: Seq<char>, sep: char)
    ensures
        joined(split(s, sep), sep) == s,
        split(s, sep).len() > 0,
        forall|i: int| 0 <= i < split(s, sep).len() ==> !(#[trigger] split(s, sep)[i]).contains(sep),
    decreases s.len(),
{
    if s.len() == 0 {
        assert(joined(split(s, sep), sep) =~= s);
    } else {
        let init = split(s.drop_last(), sep);
        law_split_pieces_join(s.drop_last(), sep);
        lemma_joined_push(init, s.last(), sep);
        assert(s.drop_last().push(s.last()) =~= s);
        let all = split(s, sep);
        assert forall|i: int| 0 <= i < all.len() implies !(#[trigger] all[i]).contains(sep) by {
            if i < init.len() - 1 {
                assert(all[i] == init[i]);
            } else if s.last() == sep {
                if i < init.len() {
                    assert(all[i] == init[i]);
                }
            } else {
                assert(all[i] == init[i].push(s.last()));
                assert(!init[i].contains(sep));
                if all[i].contains(sep) {
                    let j = choose|j: int| 0 <= j < all[i].len() && all[i][j] == sep;
                    if j < init[i].len() {
                        assert(init[i][j] == sep);
                    }
                }
            }
        }
    }
}

/// The characters of all words, one after the other.
pub open spec fn run_together(list: Seq<Seq<char>>) -> Seq<char>
    decreases list.len(),
{
    if list.len() == 0 {
        Seq::empty()
    } else {
        run_together(list.drop_last()) + list.last()
    }
}

/// A text without its whitespace.
pub open spec fn solid(s: Seq<char>) -> Seq<char>
    decreases s.len(),
{
    if s.len() == 0 {
        Seq::empty()
    } else if is_white(s.last()) {
        solid(s.drop_last())
    } else {
        solid(s.drop_last()).push(s.last())
    }
}

/// Words hold no whitespace and are never empty, and together they are all of
/// the text but its whitespace, in order.
#[verifier::rlimit(30)]
pub proof fn law_words_are_the_text(s: Seq<char>)
    ensures
        run_together(words(s)) == solid(s),
        forall|i: int|
            0 <= i < words(s).len() ==> (#[trigger] words(s)[i]).len() > 0 && solid(words(s)[i])
                == words(s)[i],
    decreases s.len(),
{
    lemma_words_of_text(s);
    if s.len() > 0 {
        let (init, touching) = words_open(s.drop_last());
        law_words_are_the_text(s.drop_last());
        lemma_words_of_text(s.drop_last());
        let all = words(s);
        if !is_white(s.last()) {
            if touching {
                let more = init.drop_last().push(init.last().push(s.last()));
                assert(all == more);
                assert(more.drop_last() =~= init.drop_last());
                assert(run_together(more) =~= run_together(init).push(s.last()));
                assert forall|i: int| 0 <= i < all.len() implies solid(#[trigger] all[i]) == all[i] by {
                    assert(solid(init[i]) == init[i]);
                    if i < init.len() - 1 {
                        assert(all[i] == init[i]);
                    } else {
                        assert(all[i] == init[i].push(s.last()));
                        assert(all[i].drop_last() =~= init[i]);
                    }
                }
            } else {
                let more = init.push(seq![s.last()]);
                assert(all == more);
                assert(more.drop_last() =~= init);
                assert(run_together(more) =~= run_together(init).push(s.last()));
                assert forall|i: int| 0 <= i < all.len() implies solid(#[trigger] all[i]) == all[i] by {
                    if i < init.len() {
                        assert(all[i] == init[i]);
                        assert(solid(init[i]) == init[i]);
                    } else {
                        let one = seq![s.last()];
                        assert(one.drop_last() =~= Seq::<char>::empty());
                        assert(solid(one.drop_last()) =~= Seq::<char>::empty());
                        assert(solid(one) =~= one);
                    }
                }
            }
        }
    }
}

/// Words end where whitespace begins, and only there: what follows whitespace
/// is another word, what follows a word's last character belongs to it.
pub proof fn law_whitespace_parts_words(s: Seq<char>, c: char, d: char)
    requires
        is_white(c),
        !is_white(d),
    ensures
        words(s.push(c)) == words(s),
        words(s.push(c).push(d)) == words(s).push(seq![d]),
        s.len() > 0 && !is_white(s.last()) ==> words(s.push(d)) == words(s).drop_last().push(
            words(s).last().push(d),
        ),
{
    assert(s.push(c).drop_last() =~= s);
    assert(s.push(d).drop_last() =~= s);
    assert(s.push(c).push(d).drop_last() =~= s.push(c));
    assert(words_open(s.push(c)) == (words(s), false));
}

/// A decimal spelling has digits only, none of them a needless zero in front,
/// and reads back as the number.
pub proof fn law_decimal_round_trip(n: nat)
    ensures
        is_digits(decimal(n)),
        digits_value(decimal(n)) == n,
        n > 0 ==> decimal(n)[0] != '0',
        n <= u64::MAX ==> parsed_u64(decimal(n)) == Some(n as u64),
    decreases n,
{
    if n >= 10 {
        law_decimal_round_trip(n / 10);
        let front = decimal(n / 10);
        assert(decimal(n).drop_last() =~= front);
        assert forall|i: int| 0 <= i < decimal(n).len() implies '0' <= #[trigger] decimal(n)[i]
            && decimal(n)[i] <= '9' by {
            if i < front.len() {
                assert(decimal(n)[i] == front[i]);
            }
        }
        assert(decimal(n)[0] == front[0]);
    } else {
        assert(decimal(n).drop_last() =~= Seq::<char>::empty());
        assert(digits_value(Seq::<char>::empty()) == 0);
    }
    let first = decimal(n)[0];
    assert('0' <= first && first <= '9');
    assert(number_text(decimal(n)) == decimal(n));
}

/// Each further digit counts what stands before it ten times, and a number is
/// read only from digits that fit, after at most one plus.
pub proof fn law_decimal_reading(s: Seq<char>, c: char)
    requires
        '0' <= c && c <= '9',
    ensures
        digits_value(s.push(c)) == 10 * digits_value(s) + (c as u32 - 48),
        parsed_u64(s) is Some ==> is_digits(s) || (s.len() > 1 && s[0] == '+' && is_digits(
            s.skip(1),
        )),
        is_digits(s) && digits_value(s) <= 18446744073709551615 ==> parsed_u64(s) == Some(
            digits_value(s) as u64,
        ),
        is_digits(s) && digits_value(s) > 18446744073709551615 ==> parsed_u64(s) is None,
        is_digits(s) ==> parsed_u64(seq!['+'] + s) == parsed_u64(s),
{
    assert(s.push(c).drop_last() =~= s);
    if s.len() > 0 && s[0] == '+' {
        assert(s.drop_first() =~= s.skip(1));
    }
    if is_digits(s) {
        assert('0' <= s[0]);
        assert((seq!['+'] + s).drop_first() =~= s);
        assert(number_text(seq!['+'] + s) =~= s);
        assert(number_text(s) == s);
    }
}

/// Hexadecimal digits: `0` to `9` and `a` to `f`, read in either case.
pub proof fn law_hex_digits(n: int, c: char)
    requires
        0 <= n < 16,
    ensures
        n < 10 ==> hex_char(n) as u32 == 48 + n,
        n >= 10 ==> hex_char(n) as u32 == 97 + (n - 10),
        hex_value(hex_char(n)) == Some(n as u8),
        hex_value(ascii_upper(hex_char(n))) == Some(n as u8),
        hex_value(c) is Some ==> hex_char((hex_value(c)->0) as int) == ascii_lower(c) && (
        hex_value(c)->0) < 16,
        ('0' <= c && c <= '9') || ('a' <= c && c <= 'f') || ('A' <= c && c <= 'F') <==> hex_value(
            c,
        ) is Some,
{
}

/// Bytes in hexadecimal: two digits each, the high one first.
pub proof fn law_hex_bytes(bytes: Seq<u8>, i: int)
    requires
        0 <= i < bytes.len(),
    ensures
        hex_lower(bytes).len() == 2 * bytes.len(),
        16 * (hex_value(hex_lower(bytes)[2 * i])->0) + (hex_value(hex_lower(bytes)[2 * i + 1])->0)
            == bytes[i],
{
    let b = bytes[i];
    assert((2 * i) / 2 == i && (2 * i + 1) / 2 == i);
    law_hex_digits((b / 16) as int, '0');
    law_hex_digits((b % 16) as int, '0');
}

/// A part stands somewhere in a text.
pub open spec fn says(s: Seq<char>, part: Seq<char>) -> bool {
    exists|i: int|
        0 <= i && i + part.len() <= s.len() && #[trigger] s.subrange(i, i + part.len()) == part
}

/// What stands at a place stands in the text.
pub proof fn lemma_says_at(s: Seq<char>, at: int, part: Seq<char>)
    requires
        0 <= at,
        at + part.len() <= s.len(),
        s.subrange(at, at + part.len()) == part,
    ensures
        says(s, part),
{
}

/// What a text was put together from stands in it.
pub proof fn lemma_says(before: Seq<char>, part: Seq<char>, after: Seq<char>)
    ensures
        says(before + part + after, part),
{
    let s = before + part + after;
    let i = before.len() as int;
    assert(s.subrange(i, i + part.len()) =~= part);
}

/// A text starts with whatever it was begun with, itself included, and with
/// nothing else.
pub proof fn law_beginnings(prefix: Seq<char>, rest: Seq<char>, s: Seq<char>)
    ensures
        starts_with(prefix + rest, prefix),
        starts_with(s, s),
        starts_with(s, prefix) ==> prefix.len() <= s.len() && s == prefix + s.skip(
            prefix.len() as int,
        ),
{
    assert((prefix + rest).take(prefix.len() as int) =~= prefix);
    assert(s.take(s.len() as int) =~= s);
    if starts_with(s, prefix) {
        assert(s =~= s.take(prefix.len() as int) + s.skip(prefix.len() as int));
    }
}

} // verus!
