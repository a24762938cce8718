//! Text as the daemon reads and writes it: white space, words, fields, lists and
//! the order of names.

use vstd::prelude::*;

verus! {

/// The characters with Unicode's `White_Space` property.
pub open spec fn is_space(c: char) -> bool {
    let n = c as int;
    ||| 0x09 <= n <= 0x0d
    ||| n == 0x20
    ||| n == 0x85
    ||| n == 0xa0
    ||| n == 0x1680
    ||| 0x2000 <= n <= 0x200a
    ||| n == 0x2028
    ||| n == 0x2029
    ||| n == 0x202f
    ||| n == 0x205f
    ||| n == 0x3000
}

/// Whether `c` is white space.
pub fn is_white_space(c: char) -> (space: bool)
    ensures
        space == is_space(c),
{
    let n: u32 = c as u32;
    (0x09 <= n && n <= 0x0d) || n == 0x20 || n == 0x85 || n == 0xa0 || n == 0x1680 || (0x2000 <= n
        && n <= 0x200a) || n == 0x2028 || n == 0x2029 || n == 0x202f || n == 0x205f || n == 0x3000
}

/// The characters of `s`, one after the other.
pub fn chars_of(s: &str) -> (chars: Vec<char>)
    ensures
        chars@ == s@,
{
    let mut out: Vec<char> = Vec::new();
    for c in it: s.chars()
        invariant
            it.seq() == s@,
            out@ == s@.take(it.index() as int),
    {
        out.push(c);
        assert(out@ =~= s@.take(it.index() + 1));
    }
    assert(s@.take(s@.len() as int) =~= s@);
    out
}

/// The text of `parts`, part by part.
pub open spec fn texts(parts: Seq<String>) -> Seq<Seq<char>> {
    parts.map_values(|p: String| p@)
}

/// The words of `s`: its longest runs of characters that are not white space,
/// in order. A character that is not white space extends the word that it
/// follows directly, and starts a word of its own elsewhere.
pub open spec fn words(s: Seq<char>) -> Seq<Seq<char>>
    decreases s.len(),
{
    if s.len() == 0 {
        seq![]
    } else {
        let before = words(s.drop_last());
        if is_space(s.last()) {
            before
        } else if s.len() == 1 || is_space(s[s.len() - 2]) {
            before.push(seq![s.last()])
        } else {
            before.drop_last().push(before.last().push(s.last()))
        }
    }
}

/// Splits `s` into its words.
pub fn split_whitespace(s: &str) -> (out: Vec<String>)
    ensures
        texts(out@) == words(s@),
{
    let chars = chars_of(s);
    let n: usize = chars.len();
    let mut out: Vec<String> = Vec::new();
    let mut in_word: bool = false;
    let mut start: usize = 0;
    let mut i: usize = 0;
    assert(texts(out@) =~= words(s@.take(0)));
    while i < n
        invariant
            n == chars.len(),
            chars@ == s@,
            start <= i <= n,
            in_word ==> start < i && words(s@.take(i as int)) == texts(out@).push(
                s@.subrange(start as int, i as int),
            ),
            !in_word ==> words(s@.take(i as int)) == texts(out@),
            in_word == (i > 0 && !is_space(s@[i - 1])),
        decreases n - i,
    {
        let ghost head = s@.take(i as int);
        let ghost next = s@.take(i + 1);
        assert(next.drop_last() =~= head);
        if is_white_space(chars[i]) {
            if in_word {
                let word = s.substring_char(start, i).to_owned();
                let ghost before = out@;
                out.push(word);
                assert(texts(out@) =~= texts(before).push(s@.subrange(start as int, i as int)));
                in_word = false;
            }
        } else {
            if in_word {
                assert(words(head).drop_last() =~= texts(out@));
                assert(words(head).last() =~= s@.subrange(start as int, i as int));
                assert(s@.subrange(start as int, i as int).push(s@[i as int]) =~= s@.subrange(
                    start as int,
                    i + 1,
                ));
            } else {
                start = i;
                in_word = true;
                assert(s@.subrange(start as int, i + 1) =~= seq![s@[i as int]]);
            }
        }
        i += 1;
    }
    assert(s@.take(n as int) =~= s@);
    if in_word {
        let word = s.substring_char(start, n).to_owned();
        let ghost before = out@;
        out.push(word);
        assert(texts(out@) =~= texts(before).push(s@.subrange(start as int, n as int)));
    }
    out
}

/// `parts` with one space between each part and the next.
pub open spec fn joined(parts: Seq<Seq<char>>) -> Seq<char>
    decreases parts.len(),
{
    if parts.len() == 0 {
        seq![]
    } else if parts.len() == 1 {
        parts[0]
    } else {
        joined(parts.drop_last()) + seq![' '] + parts.last()
    }
}

/// Writes `parts` as one text, a space between each part and the next.
pub fn join_with_spaces(parts: &Vec<String>) -> (out: String)
    ensures
        out@ == joined(texts(parts@)),
{
    let mut out = String::new();
    let mut i: usize = 0;
    while i < parts.len()
        invariant
            i <= parts.len(),
            out@ == joined(texts(parts@).take(i as int)),
        decreases parts.len() - i,
    {
        let ghost all = texts(parts@);
        assert(all.take(i + 1).drop_last() =~= all.take(i as int));
        proof {
            reveal_strlit(" ");
        }
        if i > 0 {
            out.append(" ");
            assert(" "@ =~= seq![' ']);
        }
        let ghost before = out@;
        out.append(parts[i].as_str());
        assert(i == 0 ==> before + parts@[i as int]@ =~= parts@[i as int]@);
        i += 1;
    }
    assert(texts(parts@).take(parts.len() as int) =~= texts(parts@));
    out
}

/// Whether `w` is a word: not empty, and without white space.
pub open spec fn is_word(w: Seq<char>) -> bool {
    w.len() > 0 && forall|i: int| 0 <= i < w.len() ==> !is_space(#[trigger] w[i])
}

/// The words of a text are words.
pub proof fn lemma_words_are_words(s: Seq<char>)
    ensures
        forall|i: int| 0 <= i < words(s).len() ==> is_word(#[trigger] words(s)[i]),
        s.len() > 0 && !is_space(s.last()) ==> words(s).len() > 0,
    decreases s.len(),
{
    if s.len() > 0 {
        let head = s.drop_last();
        lemma_words_are_words(head);
        assert forall|i: int| 0 <= i < words(s).len() implies is_word(#[trigger] words(s)[i]) by {
            if i < words(head).len() {
                assert(is_word(words(head)[i]));
            }
        }
    }
}

/// A word behind a space becomes the last word of the text.
proof fn lemma_words_push(s: Seq<char>, w: Seq<char>)
    requires
        is_word(w),
    ensures
        words(s + seq![' '] + w) == words(s).push(w),
    decreases w.len(),
{
    let t = s + seq![' '] + w;
    if w.len() == 1 {
        assert(t.drop_last() =~= s + seq![' ']);
        assert((s + seq![' ']).drop_last() =~= s);
        assert(words(s + seq![' ']) == words(s));
        assert(t[t.len() - 2] == ' ');
        assert(w =~= seq![t.last()]);
    } else {
        let v = w.drop_last();
        lemma_words_push(s, v);
        assert(t.drop_last() =~= s + seq![' '] + v);
        assert(!is_space(w[w.len() - 2]));
        assert(t[t.len() - 2] == w[w.len() - 2]);
        assert(words(s).push(v).drop_last() =~= words(s));
        assert(v.push(w.last()) =~= w);
    }
}

/// A word alone is the only word of its text.
proof fn lemma_words_single(w: Seq<char>)
    requires
        is_word(w),
    ensures
        words(w) == seq![w],
    decreases w.len(),
{
    if w.len() == 1 {
        assert(words(w.drop_last()) =~= seq![]);
        assert(w =~= seq![w.last()]);
        assert(Seq::<Seq<char>>::empty().push(w) =~= seq![w]);
    } else {
        let v = w.drop_last();
        lemma_words_single(v);
        assert(!is_space(w[w.len() - 2]));
        assert(seq![v].drop_last().push(v.push(w.last())) =~= seq![w]) by {
            assert(v.push(w.last()) =~= w);
        }
    }
}

/// Splitting a joined list of words gives the list back.
pub proof fn law_split_undoes_join(parts: Seq<Seq<char>>)
    requires
        forall|i: int| 0 <= i < parts.len() ==> is_word(#[trigger] parts[i]),
    ensures
        words(joined(parts)) == parts,
    decreases parts.len(),
{
    if parts.len() == 0 {
        assert(parts =~= seq![]);
    } else if parts.len() == 1 {
        lemma_words_single(parts[0]);
        assert(parts =~= seq![parts[0]]);
    } else {
        law_split_undoes_join(parts.drop_last());
        lemma_words_push(joined(parts.drop_last()), parts.last());
        assert(parts.drop_last().push(parts.last()) =~= parts);
    }
}

/// `s` without the white space at its end.
pub open spec fn trimmed_end(s: Seq<char>) -> Seq<char>
    decreases s.len(),
{
    if s.len() > 0 && is_space(s.last()) {
        trimmed_end(s.drop_last())
    } else {
        s
    }
}

/// Drops the white space at the end of `s`.
pub fn trim_end(s: &str) -> (out: String)
    ensures
        out@ == trimmed_end(s@),
{
    let chars = chars_of(s);
    let mut n: usize = chars.len();
    assert(s@.take(n as int) =~= s@);
    while n > 0 && is_white_space(chars[n - 1])
        invariant
            chars@ == s@,
            n <= chars.len(),
            trimmed_end(s@.take(n as int)) == trimmed_end(s@),
        decreases n,
    {
        assert(s@.take(n as int).drop_last() =~= s@.take(n - 1));
        n -= 1;
    }
    assert(s@.subrange(0, n as int) =~= s@.take(n as int));
    s.substring_char(0, n).to_owned()
}

/// Whether two texts are the same.
pub fn same_text(a: &str, b: &str) -> (same: bool)
    ensures
        same == (a@ == b@),
{
    a.to_owned() == b.to_owned()
}

/// The fields of `s` between its separators: one more than there are separators,
/// and some of them may be empty.
pub open spec fn fields(s: Seq<char>, separator: char) -> Seq<Seq<char>>
    decreases s.len(),
{
    if s.len() == 0 {
        seq![seq![]]
    } else {
        let before = fields(s.drop_last(), separator);
        if s.last() == separator {
            before.push(seq![])
        } else {
            before.drop_last().push(before.last().push(s.last()))
        }
    }
}

/// Splits `s` at each separator.
pub fn split_fields(s: &str, separator: char) -> (out: Vec<String>)
    ensures
        texts(out@) == fields(s@, separator),
{
    let chars = chars_of(s);
    let n: usize = chars.len();
    let mut out: Vec<String> = Vec::new();
    let mut start: usize = 0;
    let mut i: usize = 0;
    assert(s@.subrange(0, 0) =~= seq![]);
    assert(texts(out@).push(s@.subrange(0, 0)) =~= fields(s@.take(0), separator));
    while i < n
        invariant
            n == chars.len(),
            chars@ == s@,
            start <= i <= n,
            fields(s@.take(i as int), separator) == texts(out@).push(
                s@.subrange(start as int, i as int),
            ),
        decreases n - i,
    {
        let ghost head = fields(s@.take(i as int), separator);
        assert(s@.take(i + 1).drop_last() =~= s@.take(i as int));
        if chars[i] == separator {
            let field = s.substring_char(start, i).to_owned();
            let ghost before = out@;
            out.push(field);
            assert(texts(out@) =~= texts(before).push(s@.subrange(start as int, i as int)));
            start = i + 1;
            assert(s@.subrange(start as int, i + 1) =~= seq![]);
        } else {
            assert(head.drop_last() =~= texts(out@));
            assert(head.last() == s@.subrange(start as int, i as int));
            assert(s@.subrange(start as int, i as int).push(s@[i as int]) =~= s@.subrange(
                start as int,
                i + 1,
            ));
        }
        i += 1;
    }
    assert(s@.take(n as int) =~= s@);
    let field = s.substring_char(start, n).to_owned();
    let ghost before = out@;
    out.push(field);
    assert(texts(out@) =~= texts(before).push(s@.subrange(start as int, n as int)));
    out
}

/// Whether `a` comes before `b` in the order of their characters' code points,
/// where a text comes before its continuations.
pub open spec fn comes_before(a: Seq<char>, b: Seq<char>) -> bool
    decreases a.len(),
{
    if b.len() == 0 {
        false
    } else if a.len() == 0 {
        true
    } else if a[0] != b[0] {
        a[0] < b[0]
    } else {
        comes_before(a.skip(1), b.skip(1))
    }
}

/// Whether `a` comes before `b`.
pub fn text_before(a: &str, b: &str) -> (before: bool)
    ensures
        before == comes_before(a@, b@),
{
    let x = chars_of(a);
    let y = chars_of(b);
    let mut i: usize = 0;
    assert(a@.skip(0) =~= a@);
    assert(b@.skip(0) =~= b@);
    while i < x.len() && i < y.len()
        invariant
            x@ == a@,
            y@ == b@,
            i <= x.len(),
            i <= y.len(),
            comes_before(a@, b@) == comes_before(a@.skip(i as int), b@.skip(i as int)),
        decreases x.len() - i,
    {
        assert(a@.skip(i as int).skip(1) =~= a@.skip(i + 1));
        assert(b@.skip(i as int).skip(1) =~= b@.skip(i + 1));
        if x[i] != y[i] {
            return x[i] < y[i];
        }
        i += 1;
    }
    i < y.len()
}

/// No text comes before itself; of two different texts, one comes before the
/// other and not the other way round.
pub proof fn lemma_order_is_total(a: Seq<char>, b: Seq<char>)
    ensures
        !comes_before(a, a),
        a != b ==> comes_before(a, b) != comes_before(b, a),
        a == b ==> !comes_before(a, b),
    decreases a.len(),
{
    if a.len() > 0 && b.len() > 0 {
        lemma_order_is_total(a.skip(1), b.skip(1));
        lemma_order_is_total(a.skip(1), a.skip(1));
        if a[0] == b[0] && a.skip(1) == b.skip(1) {
            assert(a =~= seq![a[0]] + a.skip(1));
            assert(b =~= seq![b[0]] + b.skip(1));
        }
    } else if a.len() > 0 {
        lemma_order_is_total(a.skip(1), a.skip(1));
    } else if b.len() == 0 {
        assert(a =~= b);
    }
}

/// What comes before a text comes before all that the text comes before.
pub proof fn lemma_order_is_transitive(a: Seq<char>, b: Seq<char>, c: Seq<char>)
    requires
        comes_before(a, b),
        comes_before(b, c),
    ensures
        comes_before(a, c),
    decreases a.len(),
{
    if a.len() > 0 && a[0] == b[0] && b[0] == c[0] {
        lemma_order_is_transitive(a.skip(1), b.skip(1), c.skip(1));
    }
}

/// What Rust's `Debug` writes for the text `s`.
pub uninterp spec fn debug_text(s: Seq<char>) -> Seq<char>;

/// Whether `Debug` has nothing to escape in `s`: printable ASCII, without `"` and
/// `\`.
pub open spec fn is_plain(s: Seq<char>) -> bool {
    forall|i: int|
        0 <= i < s.len() ==> ' ' <= #[trigger] s[i] <= '~' && s[i] != '"' && s[i] != '\\'
}

/// `s` between double quotes.
pub open spec fn in_quotes(s: Seq<char>) -> Seq<char> {
    seq!['"'] + s + seq!['"']
}

/// Calls `<str as std::fmt::Debug>::fmt`, through `format!`. Claimed of it: what it
/// writes depends on the text alone, and a text with nothing to escape is written as
/// it is, between double quotes.
#[verifier::external_body]
fn quote(s: &str) -> (out: String)
    ensures
        out@ == debug_text(s@),
        is_plain(s@) ==> out@ == in_quotes(s@),
{
    format!("{:?}", s)
}

/// Each of `parts` as `Debug` writes it.
pub open spec fn debug_texts(parts: Seq<Seq<char>>) -> Seq<Seq<char>> {
    parts.map_values(|p: Seq<char>| debug_text(p))
}

/// Whether `Debug` has nothing to escape in any of `parts`.
pub open spec fn are_plain(parts: Seq<Seq<char>>) -> bool {
    forall|i: int| 0 <= i < parts.len() ==> is_plain(#[trigger] parts[i])
}

/// Each of `parts` between double quotes.
pub open spec fn all_in_quotes(parts: Seq<Seq<char>>) -> Seq<Seq<char>> {
    parts.map_values(|p: Seq<char>| in_quotes(p))
}

/// Writes each of `parts` as `Debug` does.
pub fn quote_all(parts: &Vec<String>) -> (out: Vec<String>)
    ensures
        texts(out@) == debug_texts(texts(parts@)),
        are_plain(texts(parts@)) ==> texts(out@) == all_in_quotes(texts(parts@)),
{
    let mut out: Vec<String> = Vec::new();
    let mut i: usize = 0;
    while i < parts.len()
        invariant
            i <= parts.len(),
            out@.len() == i,
            forall|j: int| 0 <= j < i ==> (#[trigger] out@[j])@ == debug_text(parts@[j]@),
            forall|j: int|
                0 <= j < i && is_plain(#[trigger] parts@[j]@) ==> out@[j]@ == in_quotes(
                    parts@[j]@,
                ),
        decreases parts.len() - i,
    {
        out.push(quote(parts[i].as_str()));
        i += 1;
    }
    assert(texts(out@) =~= debug_texts(texts(parts@)));
    proof {
        if are_plain(texts(parts@)) {
            assert forall|j: int| 0 <= j < parts@.len() implies is_plain(#[trigger] parts@[j]@) by {
                assert(is_plain(texts(parts@)[j]));
            }
            assert(texts(out@) =~= all_in_quotes(texts(parts@)));
        }
    }
    out
}

/// `parts` with a comma and a space between each part and the next.
pub open spec fn enumerated(parts: Seq<Seq<char>>) -> Seq<char>
    decreases parts.len(),
{
    if parts.len() == 0 {
        seq![]
    } else if parts.len() == 1 {
        parts[0]
    } else {
        enumerated(parts.drop_last()) + ", "@ + parts.last()
    }
}

/// `parts` as a list in square brackets.
pub open spec fn listed(parts: Seq<Seq<char>>) -> Seq<char> {
    "["@ + enumerated(parts) + "]"@
}

/// Writes `parts` as a list in square brackets.
pub fn list_items(parts: &Vec<String>) -> (out: String)
    ensures
        out@ == listed(texts(parts@)),
{
    let mut out = "[".to_owned();
    let mut i: usize = 0;
    assert("["@ + enumerated(texts(parts@).take(0)) =~= "["@);
    while i < parts.len()
        invariant
            i <= parts.len(),
            out@ == "["@ + enumerated(texts(parts@).take(i as int)),
        decreases parts.len() - i,
    {
        let ghost all = texts(parts@);
        let ghost done = enumerated(all.take(i as int));
        assert(all.take(i + 1).drop_last() =~= all.take(i as int));
        if i > 0 {
            out.append(", ");
        }
        out.append(parts[i].as_str());
        assert(i > 0 ==> "["@ + done + ", "@ + parts@[i as int]@ =~= "["@ + (done + ", "@
            + parts@[i as int]@));
        assert(i == 0 ==> "["@ + done + parts@[i as int]@ =~= "["@ + parts@[i as int]@);
        i += 1;
    }
    assert(texts(parts@).take(parts.len() as int) =~= texts(parts@));
    out.append("]");
    out
}

/// White space separates words: the words of two texts with white space between them
/// are those of the first and then those of the second. An empty text has none.
pub proof fn law_white_space_separates_words(a: Seq<char>, space: char, b: Seq<char>)
    requires
        is_space(space),
    ensures
        words(seq![]) == Seq::<Seq<char>>::empty(),
        words(a + seq![space] + b) == words(a) + words(b),
    decreases b.len(),
{
    let t = a + seq![space] + b;
    if b.len() == 0 {
        assert(t.drop_last() =~= a);
        assert(t.last() == space);
        assert(b =~= seq![]);
        assert(words(a) + words(b) =~= words(a));
    } else {
        let head = b.drop_last();
        law_white_space_separates_words(a, space, head);
        assert(t.drop_last() =~= a + seq![space] + head);
        assert(t.last() == b.last());
        if is_space(b.last()) {
        } else if b.len() == 1 {
            assert(t[t.len() - 2] == space);
            assert(head =~= seq![]);
            assert(words(a) + words(b) =~= (words(a) + words(head)).push(seq![b.last()]));
        } else if is_space(b[b.len() - 2]) {
            assert(t[t.len() - 2] == b[b.len() - 2]);
            assert(words(a) + words(b) =~= (words(a) + words(head)).push(seq![b.last()]));
        } else {
            assert(t[t.len() - 2] == b[b.len() - 2]);
            lemma_words_are_words(head);
            let both = words(a) + words(head);
            assert(both.drop_last().push(both.last().push(b.last())) =~= words(a) + words(b));
        }
    }
}

/// A text of white space has no words.
pub proof fn law_white_space_has_no_words(s: Seq<char>)
    requires
        forall|i: int| 0 <= i < s.len() ==> is_space(#[trigger] s[i]),
    ensures
        words(s) == Seq::<Seq<char>>::empty(),
    decreases s.len(),
{
    if s.len() > 0 {
        let head = s.drop_last();
        assert forall|i: int| 0 <= i < head.len() implies is_space(#[trigger] head[i]) by {
            assert(head[i] == s[i]);
        }
        law_white_space_has_no_words(head);
        assert(is_space(s[s.len() - 1]));
    }
}

/// Joined parts have one space between each part and the next, and nothing else is
/// added.
pub proof fn law_joining_puts_one_space_between(parts: Seq<Seq<char>>, part: Seq<char>)
    ensures
        joined(seq![]) == Seq::<char>::empty(),
        joined(seq![part]) == part,
        parts.len() > 0 ==> joined(parts.push(part)) == joined(parts) + seq![' '] + part,
{
    assert(parts.push(part).drop_last() =~= parts);
}

/// Trimming takes white space off the end, all of it and nothing else.
pub proof fn law_trimming_takes_off_the_white_space_at_the_end(s: Seq<char>)
    ensures
        trimmed_end(s).len() <= s.len(),
        trimmed_end(s) == s.take(trimmed_end(s).len() as int),
        trimmed_end(s).len() > 0 ==> !is_space(trimmed_end(s).last()),
        forall|i: int| trimmed_end(s).len() <= i < s.len() ==> is_space(#[trigger] s[i]),
    decreases s.len(),
{
    if s.len() > 0 && is_space(s.last()) {
        let head = s.drop_last();
        law_trimming_takes_off_the_white_space_at_the_end(head);
        assert(trimmed_end(s) =~= s.take(trimmed_end(s).len() as int));
        assert forall|i: int| trimmed_end(s).len() <= i < s.len() implies is_space(
            #[trigger] s[i],
        ) by {
            if i < head.len() {
                assert(is_space(head[i]));
            }
        }
    } else {
        assert(s.take(s.len() as int) =~= s);
    }
}

/// A text without separators is its only field.
pub proof fn law_without_separators_there_is_one_field(s: Seq<char>, separator: char)
    requires
        !s.contains(separator),
    ensures
        fields(s, separator) == seq![s],
    decreases s.len(),
{
    if s.len() > 0 {
        let head = s.drop_last();
        assert(s.contains(s[s.len() - 1]));
        assert(!head.contains(separator)) by {
            if head.contains(separator) {
                let i = choose|i: int| 0 <= i < head.len() && head[i] == separator;
                assert(s[i] == separator);
            }
        }
        law_without_separators_there_is_one_field(head, separator);
        assert(head.push(s.last()) =~= s);
        assert(seq![head].drop_last().push(s) =~= seq![s]);
    } else {
        assert(s =~= seq![]);
    }
}

/// A separator separates fields: the fields of two texts with one between them are
/// those of the first and then those of the second.
pub proof fn law_a_separator_separates_fields(a: Seq<char>, separator: char, b: Seq<char>)
    ensures
        fields(a + seq![separator] + b, separator) == fields(a, separator) + fields(b, separator),
        fields(b, separator).len() > 0,
    decreases b.len(),
{
    let t = a + seq![separator] + b;
    if b.len() == 0 {
        assert(t.drop_last() =~= a);
        assert(fields(a, separator).push(seq![]) =~= fields(a, separator) + fields(b, separator));
    } else {
        let head = b.drop_last();
        law_a_separator_separates_fields(a, separator, head);
        assert(t.drop_last() =~= a + seq![separator] + head);
        assert(t.last() == b.last());
        let both = fields(a, separator) + fields(head, separator);
        if b.last() == separator {
            assert(both.push(seq![]) =~= fields(a, separator) + fields(b, separator));
        } else {
            assert(both.drop_last().push(both.last().push(b.last())) =~= fields(a, separator)
                + fields(b, separator));
        }
    }
}

/// Of two texts, the first character in which they differ decides the order.
pub proof fn law_the_first_difference_decides(
    same: Seq<char>,
    a: char,
    b: char,
    x: Seq<char>,
    y: Seq<char>,
)
    requires
        a != b,
    ensures
        comes_before(same + seq![a] + x, same + seq![b] + y) <==> (a as int) < (b as int),
    decreases same.len(),
{
    let s = same + seq![a] + x;
    let t = same + seq![b] + y;
    if same.len() == 0 {
        assert(s[0] == a && t[0] == b);
    } else {
        let rest = same.skip(1);
        law_the_first_difference_decides(rest, a, b, x, y);
        assert(s.skip(1) =~= rest + seq![a] + x);
        assert(t.skip(1) =~= rest + seq![b] + y);
        assert(s[0] == same[0] && t[0] == same[0]);
    }
}

/// A text comes before its continuations, and not after them.
pub proof fn law_a_text_comes_before_its_continuations(s: Seq<char>, more: Seq<char>)
    requires
        more.len() > 0,
    ensures
        comes_before(s, s + more),
        !comes_before(s + more, s),
        !comes_before(s, s),
    decreases s.len(),
{
    if s.len() > 0 {
        law_a_text_comes_before_its_continuations(s.skip(1), more);
        assert((s + more).skip(1) =~= s.skip(1) + more);
    }
}

/// A list stands in square brackets, with a comma and a space between each part and
/// the next.
pub proof fn law_a_list_is_written_in_brackets(parts: Seq<Seq<char>>, part: Seq<char>)
    ensures
        listed(seq![]) == seq!['[', ']'],
        listed(seq![part]) == seq!['['] + part + seq![']'],
        parts.len() > 0 ==> listed(parts.push(part)) == listed(parts).drop_last() + seq![',', ' ']
            + part + seq![']'],
{
    reveal_strlit("[");
    reveal_strlit("]");
    reveal_strlit(", ");
    assert("["@ =~= seq!['[']);
    assert("]"@ =~= seq![']']);
    assert(", "@ =~= seq![',', ' ']);
    assert(listed(seq![]) =~= seq!['[', ']']);
    assert(parts.push(part).drop_last() =~= parts);
    assert(parts.len() > 0 ==> listed(parts.push(part)) =~= listed(parts).drop_last() + seq![
        ',',
        ' ',
    ] + part + seq![']']);
}

/// The texts of a list are those of its parts: every one, each in its place.
pub proof fn law_every_part_has_its_text(parts: Seq<String>, i: int)
    ensures
        texts(parts).len() == parts.len(),
        0 <= i < parts.len() ==> texts(parts)[i] == parts[i]@,
        debug_texts(texts(parts)).len() == parts.len(),
        0 <= i < parts.len() ==> debug_texts(texts(parts))[i] == debug_text(parts[i]@),
{
}

/// A word alone is the only word of its text.
pub proof fn law_a_word_is_the_only_word(w: Seq<char>)
    requires
        is_word(w),
    ensures
        words(w) == seq![w],
{
    lemma_words_single(w);
}

} // verus!
