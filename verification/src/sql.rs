//! How a statement of SQL starts.

use vstd::prelude::*;
use vstd::string::*;
use vstd::utf8::*;

verus! {

/// The byte stands between words.
pub open spec fn is_blank(b: u8) -> bool {
    b == 9 || b == 10 || b == 12 || b == 13 || b == 32 || b == 59
}

/// The bytes start with two given ones.
pub open spec fn starts_pair(bytes: Seq<u8>, first: u8, second: u8) -> bool {
    bytes.len() >= 2 && bytes[0] == first && bytes[1] == second
}

/// What follows the end of a line.
pub open spec fn after_line(bytes: Seq<u8>) -> Seq<u8>
    decreases bytes.len(),
{
    if bytes.len() == 0 || bytes[0] == 10 {
        bytes
    } else {
        after_line(bytes.drop_first())
    }
}

/// What follows the end of a comment that is closed by `*/`.
pub open spec fn after_comment(bytes: Seq<u8>) -> Seq<u8>
    decreases bytes.len(),
{
    if bytes.len() == 0 {
        bytes
    } else if starts_pair(bytes, 42, 47) {
        bytes.skip(2)
    } else {
        after_comment(bytes.drop_first())
    }
}

proof fn lemma_after_shorter(bytes: Seq<u8>)
    ensures
        after_line(bytes).len() <= bytes.len(),
        after_comment(bytes).len() <= bytes.len(),
    decreases bytes.len(),
{
    if bytes.len() > 0 {
        lemma_after_shorter(bytes.drop_first());
    }
}

/// What follows blanks, semicolons and comments.
pub open spec fn after_blanks(bytes: Seq<u8>) -> Seq<u8>
    decreases bytes.len(),
    via after_blanks_shorter
{
    if bytes.len() == 0 {
        bytes
    } else if is_blank(bytes[0]) {
        after_blanks(bytes.drop_first())
    } else if starts_pair(bytes, 45, 45) {
        after_blanks(after_line(bytes.skip(2)))
    } else if starts_pair(bytes, 47, 42) {
        after_blanks(after_comment(bytes.skip(2)))
    } else {
        bytes
    }
}

#[via_fn]
proof fn after_blanks_shorter(bytes: Seq<u8>) {
    if bytes.len() >= 2 {
        lemma_after_shorter(bytes.skip(2));
    }
}

/// The lower case of a letter; other bytes stay.
pub open spec fn lower(b: u8) -> u8 {
    if 65 <= b <= 90 {
        (b + 32) as u8
    } else {
        b
    }
}

/// The bytes start with a word, whose letters may be of either case.
pub open spec fn starts_with(bytes: Seq<u8>, word: Seq<u8>) -> bool {
    bytes.len() >= word.len() && forall|i: int|
        0 <= i < word.len() ==> lower(bytes[i]) == #[trigger] word[i]
}

/// What follows a word and the blanks after it, if the bytes start with it.
pub open spec fn after_word(bytes: Seq<u8>, word: Seq<u8>) -> Seq<u8> {
    if starts_with(bytes, word) {
        after_blanks(bytes.skip(word.len() as int))
    } else {
        bytes
    }
}

/// What follows `EXPLAIN` or `EXPLAIN QUERY PLAN`, if the statement starts so.
pub open spec fn explained(bytes: Seq<u8>) -> Seq<u8> {
    after_word(
        after_word(
            after_word(after_blanks(bytes), encode_utf8("explain"@)),
            encode_utf8("query"@),
        ),
        encode_utf8("plan"@),
    )
}

/// The statement is a pragma or the explanation of one. A pragma can change how a connection
/// behaves, even by being prepared.
pub open spec fn is_pragma(sql: Seq<char>) -> bool {
    starts_with(explained(encode_utf8(sql)), encode_utf8("pragma"@))
}

fn line_end(bytes: &[u8], from: usize) -> (r: usize)
    requires
        from <= bytes@.len(),
    ensures
        from <= r <= bytes@.len(),
        bytes@.skip(r as int) == after_line(bytes@.skip(from as int)),
{
    let mut k: usize = from;
    while k < bytes.len() && bytes[k] != 10
        invariant
            from <= k <= bytes@.len(),
            after_line(bytes@.skip(k as int)) == after_line(bytes@.skip(from as int)),
        decreases bytes@.len() - k,
    {
        assert(bytes@.skip(k as int).drop_first() =~= bytes@.skip(k + 1));
        k = k + 1;
    }
    k
}

fn comment_end(bytes: &[u8], from: usize) -> (r: usize)
    requires
        from <= bytes@.len(),
    ensures
        from <= r <= bytes@.len(),
        bytes@.skip(r as int) == after_comment(bytes@.skip(from as int)),
{
    let mut k: usize = from;
    while k < bytes.len()
        invariant
            from <= k <= bytes@.len(),
            after_comment(bytes@.skip(k as int)) == after_comment(bytes@.skip(from as int)),
        decreases bytes@.len() - k,
    {
        if bytes[k] == 42 && bytes.len() - k >= 2 && bytes[k + 1] == 47 {
            assert(bytes@.skip(k as int).skip(2) =~= bytes@.skip(k + 2));
            return k + 2;
        }
        assert(bytes@.skip(k as int).drop_first() =~= bytes@.skip(k + 1));
        k = k + 1;
    }
    k
}

fn blanks_end(bytes: &[u8], from: usize) -> (r: usize)
    requires
        from <= bytes@.len(),
    ensures
        from <= r <= bytes@.len(),
        bytes@.skip(r as int) == after_blanks(bytes@.skip(from as int)),
{
    let mut k: usize = from;
    while k < bytes.len()
        invariant
            from <= k <= bytes@.len(),
            after_blanks(bytes@.skip(k as int)) == after_blanks(bytes@.skip(from as int)),
        decreases bytes@.len() - k,
    {
        let b = bytes[k];
        let next: u8 = if bytes.len() - k >= 2 {
            bytes[k + 1]
        } else {
            0
        };
        let ghost rest = bytes@.skip(k as int);
        if b == 9 || b == 10 || b == 12 || b == 13 || b == 32 || b == 59 {
            assert(rest.drop_first() =~= bytes@.skip(k + 1));
            k = k + 1;
        } else if b == 45 && next == 45 {
            assert(rest.skip(2) =~= bytes@.skip(k + 2));
            k = line_end(bytes, k + 2);
        } else if b == 47 && next == 42 {
            assert(rest.skip(2) =~= bytes@.skip(k + 2));
            k = comment_end(bytes, k + 2);
        } else {
            return k;
        }
    }
    k
}

fn has_word(bytes: &[u8], from: usize, word: &str) -> (r: bool)
    requires
        from <= bytes@.len(),
    ensures
        r == starts_with(bytes@.skip(from as int), encode_utf8(word@)),
{
    let letters = word.as_bytes();
    if bytes.len() - from < letters.len() {
        return false;
    }
    let ghost rest = bytes@.skip(from as int);
    let mut k: usize = 0;
    while k < letters.len()
        invariant
            k <= letters@.len(),
            letters@ == encode_utf8(word@),
            from + letters@.len() <= bytes@.len() <= usize::MAX,
            rest == bytes@.skip(from as int),
            forall|i: int| 0 <= i < k ==> lower(rest[i]) == #[trigger] letters@[i],
        decreases letters@.len() - k,
    {
        let b = bytes[from + k];
        let c: u8 = if 65 <= b && b <= 90 {
            b + 32
        } else {
            b
        };
        assert(rest[k as int] == b);
        if c != letters[k] {
            return false;
        }
        k = k + 1;
    }
    true
}

fn word_end(bytes: &[u8], from: usize, word: &str) -> (r: usize)
    requires
        from <= bytes@.len(),
    ensures
        from <= r <= bytes@.len(),
        bytes@.skip(r as int) == after_word(bytes@.skip(from as int), encode_utf8(word@)),
{
    if has_word(bytes, from, word) {
        let len: usize = word.as_bytes().len();
        let available: usize = bytes.len();
        assert(from + len <= available);
        assert(bytes@.skip(from as int).skip(len as int) =~= bytes@.skip(from + len));
        blanks_end(bytes, from + len)
    } else {
        from
    }
}

/// The statement is a pragma or the explanation of one.
pub fn names_pragma(sql: &str) -> (r: bool)
    ensures
        r == is_pragma(sql@),
{
    let bytes = sql.as_bytes();
    assert(bytes@.skip(0) =~= bytes@);
    let start = blanks_end(bytes, 0);
    let explain = word_end(bytes, start, "explain");
    let query = word_end(bytes, explain, "query");
    let plan = word_end(bytes, query, "plan");
    has_word(bytes, plan, "pragma")
}

/// A statement that starts with the word is a pragma, whatever the case of its letters, and one
/// that starts with another letter, such as a query, is none.
pub proof fn law_pragmas_told_by_first_word(sql: Seq<char>)
    ensures
        starts_with(encode_utf8(sql), seq![112u8, 114, 97, 103, 109, 97]) ==> is_pragma(sql),
        encode_utf8(sql).len() > 0 && (encode_utf8(sql)[0] == 83 || encode_utf8(sql)[0] == 115
            || encode_utf8(sql)[0] == 87 || encode_utf8(sql)[0] == 119) ==> !is_pragma(sql),
{
    let bytes = encode_utf8(sql);
    lemma_words();
    let pragma = encode_utf8("pragma"@);
    if starts_with(bytes, pragma) {
        assert(lower(bytes[0]) == pragma[0]);
        assert(after_blanks(bytes) == bytes);
        assert(encode_utf8("explain"@)[0] == 101);
        assert(!starts_with(bytes, encode_utf8("explain"@)));
        assert(encode_utf8("query"@)[0] == 113);
        assert(!starts_with(bytes, encode_utf8("query"@)));
        let plan = encode_utf8("plan"@);
        assert(plan[1] == 108 && pragma[1] == 114);
        assert(lower(bytes[1]) == pragma[1]);
        assert(!starts_with(bytes, plan));
    }
    if bytes.len() > 0 && (bytes[0] == 83 || bytes[0] == 115 || bytes[0] == 87 || bytes[0] == 119) {
        assert(after_blanks(bytes) == bytes);
        assert(encode_utf8("explain"@)[0] == 101);
        assert(!starts_with(bytes, encode_utf8("explain"@)));
        assert(encode_utf8("query"@)[0] == 113);
        assert(!starts_with(bytes, encode_utf8("query"@)));
        assert(encode_utf8("plan"@)[0] == 112);
        assert(!starts_with(bytes, encode_utf8("plan"@)));
        assert(pragma[0] == 112);
        assert(!starts_with(bytes, pragma));
    }
}

/// The bytes of the words that statements start with.
proof fn lemma_words()
    ensures
        encode_utf8("explain"@) == seq![101u8, 120, 112, 108, 97, 105, 110],
        encode_utf8("query"@) == seq![113u8, 117, 101, 114, 121],
        encode_utf8("plan"@) == seq![112u8, 108, 97, 110],
        encode_utf8("pragma"@) == seq![112u8, 114, 97, 103, 109, 97],
{
    reveal_strlit("explain");
    reveal_strlit("query");
    reveal_strlit("plan");
    reveal_strlit("pragma");
    is_ascii_chars_encode_utf8("explain"@);
    is_ascii_chars_encode_utf8("query"@);
    is_ascii_chars_encode_utf8("plan"@);
    is_ascii_chars_encode_utf8("pragma"@);
    assert(encode_utf8("explain"@) =~= seq![101u8, 120, 112, 108, 97, 105, 110]);
    assert(encode_utf8("query"@) =~= seq![113u8, 117, 101, 114, 121]);
    assert(encode_utf8("plan"@) =~= seq![112u8, 108, 97, 110]);
    assert(encode_utf8("pragma"@) =~= seq![112u8, 114, 97, 103, 109, 97]);
}

/// What stands in front of a statement does not matter: blanks are passed over, and so is a line
/// that two hyphens start.
pub proof fn law_blanks_passed_over(b: u8, line: Seq<u8>, rest: Seq<u8>)
    requires
        forall|i: int| 0 <= i < line.len() ==> #[trigger] line[i] != 10,
    ensures
        b == 9 || b == 10 || b == 12 || b == 13 || b == 32 || b == 59 ==> after_blanks(
            seq![b] + rest,
        ) == after_blanks(rest),
        after_blanks(seq![45u8, 45u8] + line + seq![10u8] + rest) == after_blanks(rest),
{
    assert((seq![b] + rest).drop_first() =~= rest);
    let whole = seq![45u8, 45u8] + line + seq![10u8] + rest;
    assert(whole.skip(2) =~= line + (seq![10u8] + rest));
    lemma_after_line(line, seq![10u8] + rest);
    let ended = seq![10u8] + rest;
    assert(ended.drop_first() =~= rest);
    assert(after_blanks(ended) == after_blanks(rest));
    assert(after_blanks(whole) == after_blanks(after_line(whole.skip(2))));
}

proof fn lemma_after_line(line: Seq<u8>, rest: Seq<u8>)
    requires
        forall|i: int| 0 <= i < line.len() ==> #[trigger] line[i] != 10,
        rest.len() > 0 && rest[0] == 10,
    ensures
        after_line(line + rest) == rest,
    decreases line.len(),
{
    let whole = line + rest;
    if line.len() > 0 {
        assert(line[0] != 10);
        let tail = line.drop_first();
        assert forall|i: int| 0 <= i < tail.len() implies #[trigger] tail[i] != 10 by {
            assert(line[i + 1] != 10);
        }
        lemma_after_line(tail, rest);
        assert(whole.drop_first() =~= tail + rest);
    } else {
        assert(whole =~= rest);
    }
}

/// A comment in front of a statement does not matter: what stands between `/*` and the next `*/` is
/// passed over.
pub proof fn law_comments_passed_over(comment: Seq<u8>, rest: Seq<u8>)
    requires
        forall|i: int| 0 <= i < comment.len() ==> #[trigger] comment[i] != 42,
    ensures
        after_blanks(seq![47u8, 42u8] + comment + seq![42u8, 47u8] + rest) == after_blanks(rest),
{
    let whole = seq![47u8, 42u8] + comment + seq![42u8, 47u8] + rest;
    assert(whole.skip(2) =~= comment + (seq![42u8, 47u8] + rest));
    lemma_after_comment(comment, rest);
    assert(after_blanks(whole) == after_blanks(after_comment(whole.skip(2))));
}

proof fn lemma_after_comment(comment: Seq<u8>, rest: Seq<u8>)
    requires
        forall|i: int| 0 <= i < comment.len() ==> #[trigger] comment[i] != 42,
    ensures
        after_comment(comment + (seq![42u8, 47u8] + rest)) == rest,
    decreases comment.len(),
{
    let whole = comment + (seq![42u8, 47u8] + rest);
    if comment.len() > 0 {
        assert(comment[0] != 42);
        let tail = comment.drop_first();
        assert forall|i: int| 0 <= i < tail.len() implies #[trigger] tail[i] != 42 by {
            assert(comment[i + 1] != 42);
        }
        lemma_after_comment(tail, rest);
        assert(whole.drop_first() =~= tail + (seq![42u8, 47u8] + rest));
    } else {
        assert(whole.skip(2) =~= rest);
    }
}

} // verus!
