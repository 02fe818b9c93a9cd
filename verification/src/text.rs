//! Character-level building blocks of the output text.

use vstd::prelude::*;
use vstd::string::{StringExecFns, StrSliceExecFns};

verus! {

/// The ` = ` written between a key and its rendered value.
pub open spec fn eq_text() -> Seq<char> {
    " = "@
}

/// The separator between two inline entries or inline array elements.
pub open spec fn comma_sep() -> Seq<char> {
    ", "@
}

/// The separator between two top-level lines.
pub open spec fn line_sep() -> Seq<char> {
    "\n"@
}

/// The canonical text of a boolean.
pub open spec fn bool_text(b: bool) -> Seq<char> {
    if b {
        "true"@
    } else {
        "false"@
    }
}

/// One character of quoted string content: a double quote gains a backslash,
/// everything else stands as it is.
pub open spec fn esc_char(c: char) -> Seq<char> {
    if c == '"' {
        seq!['\\', '"']
    } else {
        seq![c]
    }
}

/// The text with every double quote escaped.
pub open spec fn escaped(s: Seq<char>) -> Seq<char>
    decreases s.len(),
{
    if s.len() == 0 {
        Seq::empty()
    } else {
        escaped(s.drop_last()) + esc_char(s.last())
    }
}

/// Whether the text contains a newline character.
pub open spec fn has_newline(s: Seq<char>) -> bool {
    exists|i: int| 0 <= i < s.len() && s[i] == '\n'
}

/// How a string value renders: a multi-line string becomes a triple-quoted
/// block holding the raw text; any other string is quoted with escaping.
pub open spec fn text_value(s: Seq<char>) -> Seq<char> {
    if has_newline(s) {
        "\"\"\"\n"@ + s + "\"\"\""@
    } else {
        "\""@ + escaped(s) + "\""@
    }
}

/// Texts joined with a separator between neighbours.
pub open spec fn join_texts(ts: Seq<Seq<char>>, sep: Seq<char>) -> Seq<char>
    decreases ts.len(),
{
    if ts.len() == 0 {
        Seq::empty()
    } else if ts.len() == 1 {
        ts[0]
    } else {
        join_texts(ts.drop_last(), sep) + sep + ts.last()
    }
}

/// Total character count of a sequence of texts.
pub open spec fn sum_lens(ts: Seq<Seq<char>>) -> nat
    decreases ts.len(),
{
    if ts.len() == 0 {
        0
    } else {
        sum_lens(ts.drop_last()) + ts.last().len()
    }
}

/// The texts of a vector of strings, in order.
pub open spec fn texts_model(ss: Seq<String>) -> Seq<Seq<char>> {
    ss.map_values(|s: String| s@)
}

/// A prefix never counts more characters than the whole.
pub proof fn lemma_sum_lens_prefix(ts: Seq<Seq<char>>, i: int)
    requires
        0 <= i <= ts.len(),
    ensures
        sum_lens(ts.subrange(0, i)) <= sum_lens(ts),
    decreases ts.len() - i,
{
    if i < ts.len() {
        lemma_sum_lens_prefix(ts, i + 1);
        assert(ts.subrange(0, i + 1).drop_last() =~= ts.subrange(0, i));
        assert(sum_lens(ts.subrange(0, i)) <= sum_lens(ts.subrange(0, i + 1)));
    } else {
        assert(ts.subrange(0, ts.len() as int) =~= ts);
    }
}

/// Relies on String::push: appends the given character at the end.
#[verifier::external_body]
pub(crate) fn push_char(s: &mut String, c: char)
    ensures
        final(s)@ == old(s)@.push(c),
{
    s.push(c);
}

/// Appends `src` with every double quote escaped.
pub(crate) fn append_escaped(out: &mut String, src: &str)
    ensures
        final(out)@ == old(out)@ + escaped(src@),
{
    let n = src.unicode_len();
    let mut i: usize = 0;
    proof {
        assert(out@ =~= old(out)@ + escaped(src@.subrange(0, 0)));
    }
    while i < n
        invariant
            n == src@.len(),
            0 <= i <= n,
            out@ == old(out)@ + escaped(src@.subrange(0, i as int)),
        decreases n - i,
    {
        let c = src.get_char(i);
        if c == '"' {
            push_char(out, '\\');
            push_char(out, '"');
        } else {
            push_char(out, c);
        }
        proof {
            assert(src@.subrange(0, i as int + 1).drop_last() =~= src@.subrange(0, i as int));
            assert(src@.subrange(0, i as int + 1).last() == src@[i as int]);
            assert(out@ =~= old(out)@ + escaped(src@.subrange(0, i as int + 1)));
        }
        i += 1;
    }
    proof {
        assert(src@.subrange(0, n as int) =~= src@);
    }
}

/// Whether the string contains a newline character.
pub(crate) fn contains_newline(s: &str) -> (b: bool)
    ensures
        b == has_newline(s@),
{
    let n = s.unicode_len();
    let mut i: usize = 0;
    while i < n
        invariant
            n == s@.len(),
            0 <= i <= n,
            forall|j: int| 0 <= j < i ==> s@[j] != '\n',
        decreases n - i,
    {
        if s.get_char(i) == '\n' {
            proof {
                assert(s@[i as int] == '\n');
            }
            return true;
        }
        i += 1;
    }
    false
}

/// Appends the rendering of a string value.
pub(crate) fn append_text_value(out: &mut String, src: &str)
    ensures
        final(out)@ == old(out)@ + text_value(src@),
{
    if contains_newline(src) {
        out.append("\"\"\"\n");
        out.append(src);
        out.append("\"\"\"");
        proof {
            assert(out@ =~= old(out)@ + text_value(src@));
        }
    } else {
        out.append("\"");
        append_escaped(out, src);
        out.append("\"");
        proof {
            assert(out@ =~= old(out)@ + text_value(src@));
        }
    }
}

/// Appends each text, with the separator between neighbours.
pub(crate) fn append_join(out: &mut String, parts: &Vec<String>, sep: &str)
    ensures
        final(out)@ == old(out)@ + join_texts(texts_model(parts@), sep@),
{
    let ghost tm = texts_model(parts@);
    let n = parts.len();
    let mut i: usize = 0;
    proof {
        assert(out@ =~= old(out)@ + join_texts(tm.subrange(0, 0), sep@));
    }
    while i < n
        invariant
            n == parts@.len(),
            tm == texts_model(parts@),
            0 <= i <= n,
            out@ == old(out)@ + join_texts(tm.subrange(0, i as int), sep@),
        decreases n - i,
    {
        if i > 0 {
            out.append(sep);
        }
        out.append(parts[i].as_str());
        proof {
            assert(tm.subrange(0, i as int + 1).drop_last() =~= tm.subrange(0, i as int));
            assert(tm.subrange(0, i as int + 1).last() == tm[i as int]);
            assert(out@ =~= old(out)@ + join_texts(tm.subrange(0, i as int + 1), sep@));
        }
        i += 1;
    }
    proof {
        assert(tm.subrange(0, n as int) =~= tm);
    }
}

/// Whether the rendered elements fit a character budget.
pub(crate) fn fits_inline(parts: &Vec<String>, max: usize) -> (b: bool)
    ensures
        b == (sum_lens(texts_model(parts@)) <= max),
{
    let ghost tm = texts_model(parts@);
    let mut total: usize = 0;
    let n = parts.len();
    let mut i: usize = 0;
    proof {
        assert(tm.subrange(0, 0) =~= Seq::<Seq<char>>::empty());
    }
    while i < n
        invariant
            n == parts@.len(),
            tm == texts_model(parts@),
            0 <= i <= n,
            total == sum_lens(tm.subrange(0, i as int)),
            total <= max,
        decreases n - i,
    {
        let l = parts[i].as_str().unicode_len();
        proof {
            assert(tm.subrange(0, i as int + 1).drop_last() =~= tm.subrange(0, i as int));
            assert(tm.subrange(0, i as int + 1).last() == tm[i as int]);
        }
        match total.checked_add(l) {
            Option::None => {
                proof {
                    lemma_sum_lens_prefix(tm, i as int + 1);
                }
                return false;
            },
            Option::Some(t2) => {
                if t2 > max {
                    proof {
                        lemma_sum_lens_prefix(tm, i as int + 1);
                    }
                    return false;
                }
                total = t2;
            },
        }
        i += 1;
    }
    proof {
        assert(tm.subrange(0, n as int) =~= tm);
    }
    true
}

} // verus!
