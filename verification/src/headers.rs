//! Reading a `curl -D` header dump: the final status code and `Retry-After`.
//!
//! A dump holds one header block per response (redirects give several),
//! each starting at its status line; the last block describes the response
//! that counts, and both values are read from it alone.

use vstd::prelude::*;

use crate::text::{
    chars_of, eq_ignore_ascii_case, eq_ignore_ascii_case_chars, is_last_where, last_where,
    lemma_last_where, lemma_last_where_concat, lemma_lines_concat, lines_chars, lines_of, parse_u32,
    parse_u32_chars, parse_u64, parse_u64_chars, split_once, split_once_chars, starts_with,
    starts_with_chars, trim, trim_chars, views, words, words_chars,
};

verus! {

/// A status line of an HTTP response (`HTTP/1.1 200 OK`, `HTTP/2 429`).
pub open spec fn is_status_line(line: Seq<char>) -> bool {
    starts_with(line, "HTTP/"@)
}

pub open spec fn status_line_pred() -> spec_fn(Seq<char>) -> bool {
    |line: Seq<char>| is_status_line(line)
}

/// A header line whose name (the text before the first `:`) is
/// `retry-after`, in any ASCII case.
pub open spec fn is_retry_after_line(line: Seq<char>) -> bool {
    match split_once(line, ':') {
        Some((name, _)) => eq_ignore_ascii_case(name, "retry-after"@),
        None => false,
    }
}

pub open spec fn retry_after_pred() -> spec_fn(Seq<char>) -> bool {
    |line: Seq<char>| is_retry_after_line(line)
}

/// The status code of the last status line: its second whitespace-separated
/// word, read as a `u32`.
pub open spec fn status_of(headers: Seq<char>) -> Option<u32> {
    let ls = lines_of(headers);
    match last_where(ls, status_line_pred()) {
        Some(i) => {
            let w = words(ls[i]);
            if w.len() > 1 {
                parse_u32(w[1])
            } else {
                None
            }
        },
        None => None,
    }
}

/// Where the final header block starts: at the last status line, or at the
/// first line when the dump has no status line.
pub open spec fn final_block_start(ls: Seq<Seq<char>>) -> int {
    match last_where(ls, status_line_pred()) {
        Some(i) => i,
        None => 0,
    }
}

/// The lines of the final header block.
pub open spec fn final_block(ls: Seq<Seq<char>>) -> Seq<Seq<char>> {
    ls.skip(final_block_start(ls))
}

/// The value of the last `Retry-After` line of the final header block,
/// trimmed and read as a number of seconds; `None` when that block has no
/// such line or its value is not a plain number (such as the HTTP-date form).
pub open spec fn retry_after_of(headers: Seq<char>) -> Option<u64> {
    let b = final_block(lines_of(headers));
    match last_where(b, retry_after_pred()) {
        Some(i) => match split_once(b[i], ':') {
            Some((_, value)) => parse_u64(trim(value)),
            None => None,
        },
        None => None,
    }
}

/// The index of the last status line of `ls`.
fn last_status_line(ls: &Vec<Vec<char>>) -> (r: Option<usize>)
    ensures
        match r {
            Some(i) => last_where(views(ls@), status_line_pred()) == Some(i as int) && i
                < ls@.len(),
            None => last_where(views(ls@), status_line_pred()) is None,
        },
{
    let prefix = chars_of("HTTP/");
    let ghost lv = views(ls@);
    let mut i: usize = ls.len();
    while i > 0
        invariant
            i <= ls@.len(),
            lv == views(ls@),
            prefix@ == "HTTP/"@,
            forall|j: int| i <= j < ls@.len() ==> !is_status_line(#[trigger] lv[j]),
        decreases i,
    {
        i = i - 1;
        if starts_with_chars(&ls[i], &prefix) {
            proof {
                assert(is_last_where(lv, status_line_pred(), i as int));
                lemma_last_where(lv, status_line_pred(), i as int);
            }
            return Some(i);
        }
    }
    proof {
        lemma_last_where(lv, status_line_pred(), 0);
        if last_where(lv, status_line_pred()) is Some {
            let k = last_where(lv, status_line_pred())->0;
            assert(!is_status_line(lv[k]));
        }
    }
    None
}

/// Status code of the final response in a curl -D header dump (redirects
/// produce several blocks; the last HTTP/ line wins).
pub fn http_status(headers: &str) -> (r: Option<u32>)
    ensures
        r == status_of(headers@),
{
    let v = chars_of(headers);
    let ls = lines_chars(&v);
    match last_status_line(&ls) {
        Some(i) => {
            let w = words_chars(&ls[i]);
            if w.len() > 1 {
                parse_u32_chars(&w[1])
            } else {
                None
            }
        },
        None => None,
    }
}

/// Numeric Retry-After from the final header block. The HTTP-date form is
/// rare on API rate limits and falls back to the default backoff.
pub fn retry_after_secs(headers: &str) -> (r: Option<u64>)
    ensures
        r == retry_after_of(headers@),
{
    let v = chars_of(headers);
    let ls = lines_chars(&v);
    let ghost lv = views(ls@);
    let start: usize = match last_status_line(&ls) {
        Some(i) => i,
        None => 0,
    };
    let ghost b = final_block(lv);
    assert(start as int == final_block_start(lv));
    let key = chars_of("retry-after");
    let mut i: usize = ls.len();
    while i > start
        invariant
            start <= i <= ls@.len(),
            lv == views(ls@),
            lv == lines_of(v@),
            v@ == headers@,
            b == final_block(lv),
            b == lv.skip(start as int),
            key@ == "retry-after"@,
            forall|j: int| i <= j < ls@.len() ==> !is_retry_after_line(#[trigger] lv[j]),
        decreases i,
    {
        i = i - 1;
        match split_once_chars(&ls[i], ':') {
            Some((name, value)) => {
                if eq_ignore_ascii_case_chars(&name, &key) {
                    proof {
                        let k = i - start;
                        assert(b[k] == lv[i as int]);
                        assert forall|j: int| k < j < b.len() implies !is_retry_after_line(
                            #[trigger] b[j],
                        ) by {
                            assert(b[j] == lv[j + start]);
                        }
                        assert(is_last_where(b, retry_after_pred(), k));
                        lemma_last_where(b, retry_after_pred(), k);
                    }
                    let t = trim_chars(&value);
                    return parse_u64_chars(&t);
                }
            },
            None => {},
        }
    }
    proof {
        lemma_last_where(b, retry_after_pred(), 0);
        if last_where(b, retry_after_pred()) is Some {
            let k = last_where(b, retry_after_pred())->0;
            assert(b[k] == lv[k + start]);
            assert(!is_retry_after_line(b[k]));
        }
    }
    None
}

/// The status code comes from the final header block: text after a
/// complete line that holds a status line of its own decides alone.
pub proof fn law_final_block_decides_status(earlier: Seq<char>, last: Seq<char>)
    requires
        earlier.len() == 0 || earlier.last() == '\n',
        exists|j: int| 0 <= j < lines_of(last).len() && is_status_line(#[trigger] lines_of(last)[j]),
    ensures
        status_of(earlier + last) == status_of(last),
{
    let j = choose|j: int| 0 <= j < lines_of(last).len() && is_status_line(#[trigger] lines_of(last)[j]);
    lemma_last_where(lines_of(last), status_line_pred(), j);
    lemma_lines_concat(earlier, last);
    lemma_last_where_concat(lines_of(earlier), lines_of(last), status_line_pred());
    let k = last_where(lines_of(last), status_line_pred())->0;
    assert((lines_of(earlier) + lines_of(last))[lines_of(earlier).len() + k] == lines_of(last)[k]);
}

/// `Retry-After` comes from the final header block: whatever header blocks
/// precede a part that holds a status line of its own, that part decides
/// alone, whether or not it has a `Retry-After` line.
pub proof fn law_final_block_decides_retry_after(earlier: Seq<char>, last: Seq<char>)
    requires
        earlier.len() == 0 || earlier.last() == '\n',
        exists|j: int| 0 <= j < lines_of(last).len() && is_status_line(#[trigger] lines_of(last)[j]),
    ensures
        retry_after_of(earlier + last) == retry_after_of(last),
{
    let j = choose|j: int| 0 <= j < lines_of(last).len() && is_status_line(#[trigger] lines_of(last)[j]);
    let l1 = lines_of(earlier);
    let l2 = lines_of(last);
    lemma_last_where(l2, status_line_pred(), j);
    lemma_lines_concat(earlier, last);
    lemma_last_where_concat(l1, l2, status_line_pred());
    let k = last_where(l2, status_line_pred())->0;
    assert(final_block_start(l1 + l2) == l1.len() + k);
    assert(final_block(l1 + l2) =~= final_block(l2));
}

} // verus!
