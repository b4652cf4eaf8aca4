//! Secrets are kept out of log lines: each occurrence of a secret in a line
//! is replaced by a mask before the line is logged.

use crate::text::{chars_of, matches_at, occurs_at, occurs_in, string_of};
use vstd::prelude::*;

verus! {

/// What stands in a log line in place of a secret: five asterisks.
pub open spec fn mask() -> Seq<char> {
    seq!['*', '*', '*', '*', '*']
}

/// `text` with `with` in place of each occurrence of `secret`. The
/// occurrences are taken from the left and do not overlap. The empty secret
/// occurs before each character and at the end.
pub open spec fn replace_all(text: Seq<char>, secret: Seq<char>, with: Seq<char>) -> Seq<char>
    decreases text.len(),
{
    if secret.len() == 0 {
        if text.len() == 0 {
            with
        } else {
            with + seq![text[0]] + replace_all(text.skip(1), secret, with)
        }
    } else if text.len() < secret.len() {
        text
    } else if occurs_at(text, secret, 0) {
        with + replace_all(text.skip(secret.len() as int), secret, with)
    } else {
        seq![text[0]] + replace_all(text.skip(1), secret, with)
    }
}

/// `text` with the mask in place of each occurrence of each secret, the
/// secrets taken one after the other in their order.
pub open spec fn redact(text: Seq<char>, secrets: Seq<Seq<char>>) -> Seq<char>
    decreases secrets.len(),
{
    if secrets.len() == 0 {
        text
    } else {
        replace_all(redact(text, secrets.drop_last()), secrets.last(), mask())
    }
}

/// Appends the characters of `more` to `out`.
fn append_chars(out: &mut Vec<char>, more: &Vec<char>)
    ensures
        final(out)@ == old(out)@ + more@,
{
    let mut i: usize = 0;
    while i < more.len()
        invariant
            i <= more.len(),
            out@ == old(out)@ + more@.take(i as int),
        decreases more.len() - i,
    {
        out.push(more[i]);
        assert(more@.take(i + 1) =~= more@.take(i as int).push(more@[i as int]));
        i += 1;
    }
    assert(more@.take(more.len() as int) =~= more@);
}

/// Where a secret that is not empty does not stand at the start of a text,
/// the text's first character stays and the rest is searched.
proof fn lemma_replace_skips(text: Seq<char>, secret: Seq<char>, with: Seq<char>)
    requires
        secret.len() > 0,
        text.len() > 0,
        !occurs_at(text, secret, 0),
    ensures
        replace_all(text, secret, with) == seq![text[0]] + replace_all(text.skip(1), secret, with),
    decreases text.len(),
{
    if text.len() < secret.len() {
        let rest = text.skip(1);
        if rest.len() > 0 {
            assert(!occurs_at(rest, secret, 0));
            lemma_replace_skips(rest, secret, with);
        }
        assert(replace_all(rest, secret, with) == rest);
        assert(text =~= seq![text[0]] + rest);
    }
}

/// `text` with `with` in place of each occurrence of `secret`.
pub fn replace_chars(text: &Vec<char>, secret: &Vec<char>, with: &Vec<char>) -> (out: Vec<char>)
    ensures
        out@ == replace_all(text@, secret@, with@),
{
    let mut out: Vec<char> = Vec::new();
    let mut i: usize = 0;
    assert(text@.skip(0) =~= text@);
    if secret.len() == 0 {
        while i < text.len()
            invariant
                i <= text.len(),
                secret.len() == 0,
                out@ + replace_all(text@.skip(i as int), secret@, with@) == replace_all(
                    text@,
                    secret@,
                    with@,
                ),
            decreases text.len() - i,
        {
            let ghost before = out@;
            let ghost rest = text@.skip(i as int);
            append_chars(&mut out, with);
            out.push(text[i]);
            assert(rest.skip(1) =~= text@.skip(i + 1));
            assert(out@ + replace_all(rest.skip(1), secret@, with@) =~= before + (with@
                + seq![rest[0]] + replace_all(rest.skip(1), secret@, with@)));
            i += 1;
        }
        let ghost before = out@;
        append_chars(&mut out, with);
        return out;
    }
    while i < text.len()
        invariant
            i <= text.len(),
            secret.len() > 0,
            out@ + replace_all(text@.skip(i as int), secret@, with@) == replace_all(
                text@,
                secret@,
                with@,
            ),
        decreases text.len() - i,
    {
        let ghost before = out@;
        let ghost rest = text@.skip(i as int);
        if matches_at(text, secret, i) {
            assert(rest.subrange(0, secret@.len() as int) =~= text@.subrange(
                i as int,
                i + secret@.len(),
            ));
            assert(occurs_at(rest, secret@, 0));
            append_chars(&mut out, with);
            assert(rest.skip(secret@.len() as int) =~= text@.skip(i + secret@.len()));
            assert(out@ + replace_all(rest.skip(secret@.len() as int), secret@, with@) =~= before
                + (with@ + replace_all(rest.skip(secret@.len() as int), secret@, with@)));
            i += secret.len();
        } else {
            proof {
                if occurs_at(rest, secret@, 0) {
                    assert(rest.subrange(0, secret@.len() as int) =~= text@.subrange(
                        i as int,
                        i + secret@.len(),
                    ));
                }
                lemma_replace_skips(rest, secret@, with@);
            }
            out.push(text[i]);
            assert(rest.skip(1) =~= text@.skip(i + 1));
            assert(out@ + replace_all(rest.skip(1), secret@, with@) =~= before + (seq![rest[0]]
                + replace_all(rest.skip(1), secret@, with@)));
            i += 1;
        }
    }
    assert(out@ + Seq::<char>::empty() =~= out@);
    out
}

/// The mask as characters.
pub fn mask_chars() -> (chars: Vec<char>)
    ensures
        chars@ == mask(),
{
    let mut chars: Vec<char> = Vec::new();
    chars.push('*');
    chars.push('*');
    chars.push('*');
    chars.push('*');
    chars.push('*');
    assert(chars@ =~= mask());
    chars
}

/// `text` with the mask in place of each occurrence of each of `secrets`.
pub fn redact_text(text: &str, secrets: &Vec<String>) -> (redacted: String)
    ensures
        redacted@ == redact(text@, secrets.deep_view()),
{
    let with = mask_chars();
    let mut chars = chars_of(text);
    let mut i: usize = 0;
    assert(secrets.deep_view().take(0) =~= Seq::empty());
    while i < secrets.len()
        invariant
            i <= secrets.len(),
            with@ == mask(),
            chars@ == redact(text@, secrets.deep_view().take(i as int)),
        decreases secrets.len() - i,
    {
        let secret = chars_of(secrets[i].as_str());
        assert(secrets.deep_view().take(i + 1).drop_last() =~= secrets.deep_view().take(i as int));
        assert(secrets.deep_view().take(i + 1).last() == secret@);
        chars = replace_chars(&chars, &secret, &with);
        i += 1;
    }
    assert(secrets.deep_view().take(secrets.len() as int) =~= secrets.deep_view());
    string_of(&chars)
}

/// No character of `s` is one of `with`.
pub open spec fn shares_no_char(s: Seq<char>, with: Seq<char>) -> bool {
    forall|i: int, j: int| 0 <= i < s.len() && 0 <= j < with.len() ==> s[i] != with[j]
}

/// An occurrence in the back part of a text is one in the text.
proof fn lemma_occurs_in_rest(text: Seq<char>, s: Seq<char>, skipped: int, at: int)
    requires
        0 <= skipped <= text.len(),
        occurs_at(text.skip(skipped), s, at),
    ensures
        occurs_at(text, s, at + skipped),
{
    assert(text.subrange(at + skipped, at + skipped + s.len()) =~= text.skip(skipped).subrange(
        at,
        at + s.len(),
    ));
}

/// An occurrence in a text of two parts that starts behind the first part is
/// one in the second part.
proof fn lemma_occurs_behind(head: Seq<char>, tail: Seq<char>, s: Seq<char>, at: int)
    requires
        occurs_at(head + tail, s, at),
        at >= head.len(),
    ensures
        occurs_at(tail, s, at - head.len()),
{
    assert(tail.subrange(at - head.len(), at - head.len() + s.len()) =~= (head + tail).subrange(
        at,
        at + s.len(),
    ));
}

/// A text that holds no occurrence holds none in its back part.
proof fn lemma_rest_holds_none(text: Seq<char>, s: Seq<char>, skipped: int)
    requires
        0 <= skipped <= text.len(),
        !occurs_in(text, s),
    ensures
        !occurs_in(text.skip(skipped), s),
{
    if occurs_in(text.skip(skipped), s) {
        let back = choose|back: int| occurs_at(text.skip(skipped), s, back);
        lemma_occurs_in_rest(text, s, skipped, back);
    }
}

/// The characters of an occurrence are those of the text where it stands.
proof fn lemma_occurrence_char(text: Seq<char>, s: Seq<char>, at: int, k: int)
    requires
        occurs_at(text, s, at),
        0 <= k < s.len(),
    ensures
        s[k] == text[at + k],
{
    assert(text.subrange(at, at + s.len())[k] == text[at + k]);
}

/// What a replacement starts with, as far as it holds no character of the
/// replacing text, stood at the start of the text before.
proof fn lemma_clear_start_is_old(
    text: Seq<char>,
    secret: Seq<char>,
    with: Seq<char>,
    start: Seq<char>,
)
    requires
        with.len() > 0,
        shares_no_char(start, with),
        occurs_at(replace_all(text, secret, with), start, 0),
    ensures
        occurs_at(text, start, 0),
    decreases text.len(),
{
    let replaced = replace_all(text, secret, with);
    if start.len() == 0 {
        assert(text.subrange(0, 0) =~= start);
    } else {
        lemma_occurrence_char(replaced, start, 0, 0);
        if secret.len() == 0 {
            assert(replaced[0] == with[0]);
        } else if text.len() < secret.len() {
        } else if occurs_at(text, secret, 0) {
            assert(replaced[0] == with[0]);
        } else {
            let rest = replace_all(text.skip(1), secret, with);
            assert(replaced == seq![text[0]] + rest);
            assert(rest.subrange(0, start.len() - 1) =~= replaced.subrange(
                0,
                start.len() as int,
            ).skip(1));
            assert(occurs_at(rest, start.skip(1), 0));
            lemma_clear_start_is_old(text.skip(1), secret, with, start.skip(1));
            assert forall|k: int| 0 <= k < start.len() implies text.subrange(
                0,
                start.len() as int,
            )[k] == start[k] by {
                if k > 0 {
                    lemma_occurrence_char(text.skip(1), start.skip(1), 0, k - 1);
                }
            }
            assert(text.subrange(0, start.len() as int) =~= start);
        }
    }
}

/// A replacement brings no occurrence of `s` into a text that holds none,
/// where `s` is not empty and has no character of the replacing text.
proof fn lemma_replace_adds_no_occurrence(
    text: Seq<char>,
    secret: Seq<char>,
    with: Seq<char>,
    s: Seq<char>,
)
    requires
        with.len() > 0,
        s.len() > 0,
        shares_no_char(s, with),
        !occurs_in(text, s),
    ensures
        !occurs_in(replace_all(text, secret, with), s),
    decreases text.len(),
{
    let replaced = replace_all(text, secret, with);
    if occurs_in(replaced, s) {
        let at = choose|at: int| occurs_at(replaced, s, at);
        if at == 0 {
            lemma_clear_start_is_old(text, secret, with, s);
            assert(occurs_at(text, s, 0));
        } else if secret.len() == 0 {
            if text.len() == 0 || at < with.len() {
                lemma_occurrence_char(replaced, s, at, 0);
                assert(replaced[at] == with[at]);
            } else {
                let rest = replace_all(text.skip(1), secret, with);
                assert(replaced == with + seq![text[0]] + rest);
                if at == with.len() {
                    lemma_occurrence_char(replaced, s, at, 0);
                    if s.len() == 1 {
                        assert(text.subrange(0, 1) =~= s);
                        assert(occurs_at(text, s, 0));
                    } else {
                        lemma_occurrence_char(replaced, s, at, 1);
                        assert(rest[0] == with[0]);
                    }
                } else {
                    lemma_occurs_behind(with + seq![text[0]], rest, s, at);
                    lemma_rest_holds_none(text, s, 1);
                    lemma_replace_adds_no_occurrence(text.skip(1), secret, with, s);
                }
            }
        } else if text.len() < secret.len() {
        } else if occurs_at(text, secret, 0) {
            let rest = replace_all(text.skip(secret.len() as int), secret, with);
            if at < with.len() {
                lemma_occurrence_char(replaced, s, at, 0);
                assert(replaced[at] == with[at]);
            } else {
                lemma_occurs_behind(with, rest, s, at);
                lemma_rest_holds_none(text, s, secret.len() as int);
                lemma_replace_adds_no_occurrence(text.skip(secret.len() as int), secret, with, s);
            }
        } else {
            let rest = replace_all(text.skip(1), secret, with);
            lemma_occurs_behind(seq![text[0]], rest, s, at);
            lemma_rest_holds_none(text, s, 1);
            lemma_replace_adds_no_occurrence(text.skip(1), secret, with, s);
        }
    }
}

/// A replacement leaves no occurrence of the secret that it replaces, where
/// the secret is not empty and has no character of the replacing text.
pub proof fn lemma_replace_removes_secret(text: Seq<char>, secret: Seq<char>, with: Seq<char>)
    requires
        with.len() > 0,
        secret.len() > 0,
        shares_no_char(secret, with),
    ensures
        !occurs_in(replace_all(text, secret, with), secret),
    decreases text.len(),
{
    let replaced = replace_all(text, secret, with);
    if occurs_in(replaced, secret) {
        let at = choose|at: int| occurs_at(replaced, secret, at);
        if text.len() < secret.len() {
        } else if occurs_at(text, secret, 0) {
            let rest = replace_all(text.skip(secret.len() as int), secret, with);
            if at < with.len() {
                lemma_occurrence_char(replaced, secret, at, 0);
                assert(replaced[at] == with[at]);
            } else {
                lemma_occurs_behind(with, rest, secret, at);
                lemma_replace_removes_secret(text.skip(secret.len() as int), secret, with);
            }
        } else if at == 0 {
            lemma_clear_start_is_old(text, secret, with, secret);
        } else {
            let rest = replace_all(text.skip(1), secret, with);
            lemma_occurs_behind(seq![text[0]], rest, secret, at);
            lemma_replace_removes_secret(text.skip(1), secret, with);
        }
    }
}

/// A redacted text holds none of the secrets that are not empty and hold no
/// asterisk, whichever other secrets were replaced before or after.
pub proof fn lemma_redacted_holds_no_secret(text: Seq<char>, secrets: Seq<Seq<char>>, which: int)
    requires
        0 <= which < secrets.len(),
        secrets[which].len() > 0,
        !secrets[which].contains('*'),
    ensures
        !occurs_in(redact(text, secrets), secrets[which]),
    decreases secrets.len(),
{
    let secret = secrets[which];
    assert(shares_no_char(secret, mask())) by {
        assert forall|i: int, j: int| 0 <= i < secret.len() && 0 <= j < mask().len() implies secret[i]
            != mask()[j] by {
            assert(secret.contains(secret[i]));
        }
    }
    let before = redact(text, secrets.drop_last());
    if which == secrets.len() - 1 {
        lemma_replace_removes_secret(before, secret, mask());
    } else {
        assert(secrets.drop_last()[which] == secret);
        lemma_redacted_holds_no_secret(text, secrets.drop_last(), which);
        lemma_replace_adds_no_occurrence(before, secrets.last(), mask(), secret);
    }
}

} // verus!
