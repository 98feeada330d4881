//! Files with one entry on each line.

use crate::text::{
    find_is, find_unique, is_white, lines, texts, texts_push, trim_end, trim_start, trimmed,
    without_cr,
};
use vstd::utf8::{decode_utf8, encode_scalar, encode_utf8, valid_utf8};
use vstd::prelude::*;

verus! {

/// A text that another line can follow: empty, or with a newline at the end.
pub open spec fn ends_line(s: Seq<char>) -> bool {
    s.len() == 0 || s.last() == '\n'
}

// ---- files of any bytes --------------------------------------------------------------------
/// Where the first newline stands, or the length where there is none.
pub open spec fn newline_at(b: Seq<u8>) -> int
    decreases b.len(),
{
    if b.len() == 0 {
        0
    } else if b[0] == 10 {
        0
    } else {
        1 + newline_at(b.skip(1))
    }
}

/// The lines of a file, without their newlines; the last line needs none.
pub open spec fn byte_lines(b: Seq<u8>) -> Seq<Seq<u8>>
    decreases b.len(),
    via byte_lines_decreases
{
    if b.len() == 0 {
        Seq::empty()
    } else if newline_at(b) == b.len() {
        seq![b]
    } else {
        seq![b.take(newline_at(b))] + byte_lines(b.skip(newline_at(b) + 1))
    }
}

#[via_fn]
proof fn byte_lines_decreases(b: Seq<u8>) {
    newline_is(b);
}

proof fn newline_is(b: Seq<u8>)
    ensures
        0 <= newline_at(b) <= b.len(),
        newline_at(b) < b.len() ==> b[newline_at(b)] == 10,
        forall|i: int| 0 <= i < newline_at(b) ==> b[i] != 10,
    decreases b.len(),
{
    if b.len() > 0 && b[0] != 10 {
        newline_is(b.skip(1));
        assert forall|i: int| 0 <= i < newline_at(b) implies b[i] != 10 by {
            if i > 0 {
                assert(b[i] == b.skip(1)[i - 1]);
            }
        }
    }
}

proof fn newline_unique(b: Seq<u8>, k: int)
    requires
        0 <= k <= b.len(),
        k < b.len() ==> b[k] == 10,
        forall|i: int| 0 <= i < k ==> b[i] != 10,
    ensures
        newline_at(b) == k,
{
    newline_is(b);
}

/// The lines that are UTF-8, as text, in order.
pub open spec fn readable(ls: Seq<Seq<u8>>) -> Seq<Seq<char>>
    decreases ls.len(),
{
    if ls.len() == 0 {
        Seq::empty()
    } else if valid_utf8(ls.last()) {
        readable(ls.drop_last()).push(decode_utf8(ls.last()))
    } else {
        readable(ls.drop_last())
    }
}

/// The lines of a file that are UTF-8, as text. A line may end in a carriage return.
pub open spec fn text_lines(b: Seq<u8>) -> Seq<Seq<char>> {
    readable(byte_lines(b))
}

/// Trusted: `std::str::from_utf8` gives the text whose UTF-8 encoding the bytes are, and fails
/// exactly where they are no valid UTF-8.
#[verifier::external_body]
pub(crate) fn utf8_text(bytes: &[u8]) -> (r: Option<String>)
    ensures
        match r {
            Some(s) => valid_utf8(bytes@) && s@ == decode_utf8(bytes@),
            None => !valid_utf8(bytes@),
        },
{
    match std::str::from_utf8(bytes) {
        Ok(s) => Some(s.to_owned()),
        Err(_) => None,
    }
}

/// The lines of a file that are UTF-8, as text.
pub fn read_lines(b: &[u8]) -> (out: Vec<String>)
    ensures
        texts(out@) == text_lines(b@),
{
    let n: usize = b.len();
    let mut out: Vec<String> = Vec::new();
    let mut start: usize = 0;
    let mut i: usize = 0;
    let ghost mut done: Seq<Seq<u8>> = Seq::empty();
    proof {
        assert(b@.skip(0) =~= b@);
        assert(done + byte_lines(b@) =~= byte_lines(b@));
        assert(texts(out@) =~= readable(done));
    }
    while i < n
        invariant
            n == b@.len(),
            start <= i <= n,
            done + byte_lines(b@.skip(start as int)) == byte_lines(b@),
            texts(out@) == readable(done),
            forall|j: int| start <= j < i ==> b@[j] != 10,
        decreases n - i,
    {
        if b[i] == 10 {
            let line = vstd::slice::slice_subrange(b, start, i);
            proof {
                let rest = b@.skip(start as int);
                newline_unique(rest, i - start);
                assert(rest.take(i - start) =~= line@);
                assert(rest.skip(i - start + 1) =~= b@.skip(i + 1));
                assert(done.push(line@) + byte_lines(b@.skip(i + 1)) =~= done + (seq![line@]
                    + byte_lines(b@.skip(i + 1))));
                assert(done.push(line@).drop_last() =~= done);
                done = done.push(line@);
            }
            keep_text(&mut out, line, Ghost(done));
            start = i + 1;
        }
        i += 1;
    }
    if start < n {
        let line = vstd::slice::slice_subrange(b, start, n);
        proof {
            let rest = b@.skip(start as int);
            newline_unique(rest, n - start);
            assert(rest =~= line@);
            assert(byte_lines(rest) =~= seq![line@]);
            assert(done.push(line@) =~= done + seq![line@]);
            assert(done.push(line@).drop_last() =~= done);
            done = done.push(line@);
        }
        keep_text(&mut out, line, Ghost(done));
    } else {
        proof {
            assert(b@.skip(start as int).len() == 0);
            assert(done + byte_lines(b@.skip(start as int)) =~= done);
        }
    }
    out
}

/// Adds the text of the last line, if it has one.
fn keep_text(out: &mut Vec<String>, line: &[u8], Ghost(done): Ghost<Seq<Seq<u8>>>)
    requires
        done.len() > 0,
        done.last() == line@,
        texts(old(out)@) == readable(done.drop_last()),
    ensures
        texts(final(out)@) == readable(done),
{
    if let Some(s) = utf8_text(line) {
        proof {
            texts_push(out@, s);
        }
        out.push(s);
    }
}

/// A file that another line can follow: empty, or with a newline at the end.
pub open spec fn closed_off(b: Seq<u8>) -> Seq<u8> {
    if b.len() == 0 || b.last() == 10 {
        b
    } else {
        b.push(10)
    }
}

/// A file with an entry more, on a line of its own.
pub open spec fn appended(existing: Seq<u8>, entry: Seq<char>) -> Seq<u8> {
    closed_off(existing) + encode_utf8(entry).push(10)
}

/// Puts an entry behind a file, on a line of its own, with a newline at the end. What is there
/// stays, whatever its bytes are.
pub fn append_line(existing: &[u8], entry: &str) -> (r: Vec<u8>)
    ensures
        r@ == appended(existing@, entry@),
        existing@.is_prefix_of(r@),
        r@ == (if existing@.len() == 0 || existing@[existing@.len() - 1] == 10 {
            existing@
        } else {
            existing@ + seq![10u8]
        }) + encode_utf8(entry@) + seq![10u8],
{
    let mut content = vstd::slice::slice_to_vec(existing);
    if content.len() > 0 && content[content.len() - 1] != 10 {
        content.push(10);
    }
    content.extend_from_slice(entry.as_bytes());
    content.push(10);
    proof {
        assert(content@ =~= appended(existing@, entry@));
        assert(content@ =~= (if existing@.len() == 0 || existing@[existing@.len() - 1] == 10 {
            existing@
        } else {
            existing@ + seq![10u8]
        }) + encode_utf8(entry@) + seq![10u8]);
        assert(existing@ =~= content@.subrange(0, existing@.len() as int));
    }
    content
}

// ---- lemmas and laws -----------------------------------------------------------------------
/// The lines of two texts put together, where the first one ends its last line.
pub proof fn lines_of_both(a: Seq<char>, b: Seq<char>)
    requires
        ends_line(a),
    ensures
        lines(a + b) == lines(a) + lines(b),
    decreases a.len(),
{
    if a.len() == 0 {
        assert(a + b =~= b);
        assert(lines(a) + lines(b) =~= lines(b));
    } else {
        find_is(a, '\n');
        assert(a[a.len() - 1] == '\n');
        let k = crate::text::find(a, '\n') as int;
        assert(a.contains(a[a.len() - 1]));
        assert forall|i: int| 0 <= i < k implies (a + b)[i] != '\n' by {
            assert((a + b)[i] == a[i]);
        }
        find_unique(a + b, '\n', k);
        let rest = a.skip(k + 1);
        if rest.len() > 0 {
            assert(rest.last() == a.last());
        }
        lines_of_both(rest, b);
        assert((a + b).take(k) =~= a.take(k));
        assert((a + b).skip(k + 1) =~= rest + b);
        assert(lines(a + b) =~= lines(a) + lines(b));
    }
}

/// An entry with no newline in it is one line.
pub proof fn line_of_entry(entry: Seq<char>)
    requires
        !entry.contains('\n'),
    ensures
        lines(entry.push('\n')) == seq![without_cr(entry)],
{
    let t = entry.push('\n');
    let k = entry.len() as int;
    assert forall|i: int| 0 <= i < k implies t[i] != '\n' by {
        assert(t[i] == entry[i]);
        assert(entry.contains(entry[i]));
    }
    find_unique(t, '\n', k);
    assert(t.take(k) =~= entry);
    assert(t.skip(k + 1).len() == 0);
    assert(lines(t.skip(k + 1)) =~= Seq::<Seq<char>>::empty());
    assert(lines(t) =~= seq![without_cr(entry)]);
}

proof fn byte_lines_of_both(a: Seq<u8>, b: Seq<u8>)
    requires
        a.len() == 0 || a.last() == 10,
    ensures
        byte_lines(a + b) == byte_lines(a) + byte_lines(b),
    decreases a.len(),
{
    if a.len() == 0 {
        assert(a + b =~= b);
        assert(byte_lines(a) + byte_lines(b) =~= byte_lines(b));
    } else {
        newline_is(a);
        let k = newline_at(a);
        assert(a[a.len() - 1] == 10);
        assert forall|i: int| 0 <= i < k implies (a + b)[i] != 10 by {
            assert((a + b)[i] == a[i]);
        }
        newline_unique(a + b, k);
        let rest = a.skip(k + 1);
        if rest.len() > 0 {
            assert(rest.last() == a.last());
        }
        byte_lines_of_both(rest, b);
        assert((a + b).take(k) =~= a.take(k));
        assert((a + b).skip(k + 1) =~= rest + b);
        assert(byte_lines(a + b) =~= byte_lines(a) + byte_lines(b));
    }
}

proof fn byte_lines_closed_off(b: Seq<u8>)
    ensures
        byte_lines(closed_off(b)) == byte_lines(b),
    decreases b.len(),
{
    if b.len() > 0 && b.last() != 10 {
        newline_is(b);
        let k = newline_at(b);
        let t = b.push(10);
        assert forall|i: int| 0 <= i < k implies t[i] != 10 by {
            assert(t[i] == b[i]);
        }
        newline_unique(t, k);
        if k == b.len() {
            assert(t.take(k) =~= b);
            assert(byte_lines(t.skip(k + 1)) =~= Seq::empty());
            assert(byte_lines(t) =~= seq![b]);
            assert(byte_lines(b) =~= seq![b]);
        } else {
            let rest = b.skip(k + 1);
            assert(rest.last() == b.last());
            byte_lines_closed_off(rest);
            assert(t.take(k) =~= b.take(k));
            assert(t.skip(k + 1) =~= rest.push(10));
        }
    }
}

proof fn readable_both(a: Seq<Seq<u8>>, b: Seq<Seq<u8>>)
    ensures
        readable(a + b) == readable(a) + readable(b),
    decreases b.len(),
{
    if b.len() == 0 {
        assert(a + b =~= a);
        assert(readable(a) + readable(b) =~= readable(a));
    } else {
        assert((a + b).drop_last() =~= a + b.drop_last());
        assert((a + b).last() == b.last());
        readable_both(a, b.drop_last());
        assert(readable(a + b) =~= readable(a) + readable(b));
    }
}

/// A newline is encoded only by itself.
proof fn encoded_newline(c: char)
    requires
        c != '\n',
    ensures
        !encode_scalar(c as u32).contains(10),
{
    let s = c as u32;
    vstd::utf8::char_is_scalar(c);
    assert(s != 10);
    assert(s <= 0x7F && s != 10 ==> (s & 0x7F) as u8 != 10) by (bit_vector);
    assert(0xC0u8 | ((s >> 6) & 0x1F) as u8 != 10) by (bit_vector);
    assert(0xE0u8 | ((s >> 12) & 0x0F) as u8 != 10) by (bit_vector);
    assert(0xF0u8 | ((s >> 18) & 0x7) as u8 != 10) by (bit_vector);
    assert(0x80u8 | (s & 0x3F) as u8 != 10) by (bit_vector);
    assert(0x80u8 | ((s >> 6) & 0x3F) as u8 != 10) by (bit_vector);
    assert(0x80u8 | ((s >> 12) & 0x3F) as u8 != 10) by (bit_vector);
}

proof fn encoded_line(entry: Seq<char>)
    requires
        !entry.contains('\n'),
    ensures
        !encode_utf8(entry).contains(10),
    decreases entry.len(),
{
    if entry.len() > 0 {
        let rest = entry.drop_first();
        assert(!rest.contains('\n')) by {
            if rest.contains('\n') {
                let i = rest.index_of('\n');
                assert(entry[i + 1] == '\n');
            }
        }
        encoded_line(rest);
        assert(entry.contains(entry[0]));
        encoded_newline(entry[0]);
        let a = encode_scalar(entry[0] as u32);
        let b = encode_utf8(rest);
        if (a + b).contains(10) {
            let i = (a + b).index_of(10);
            if i < a.len() {
                assert(a[i] == 10);
            } else {
                assert(b[i - a.len()] == 10);
            }
        }
    }
}

/// Appending an entry keeps every line that was there and adds one, the entry.
pub proof fn appending_adds_one_line(existing: Seq<u8>, entry: Seq<char>)
    requires
        !entry.contains('\n'),
    ensures
        text_lines(appended(existing, entry)) == text_lines(existing).push(entry),
        existing.is_prefix_of(appended(existing, entry)),
{
    let base = closed_off(existing);
    let line = encode_utf8(entry);
    encoded_line(entry);
    assert forall|i: int| 0 <= i < line.len() implies line[i] != 10 by {
        assert(line.contains(line[i]));
    }
    byte_lines_of_both(base, line.push(10));
    byte_lines_closed_off(existing);
    let t = line.push(10);
    newline_unique(t, line.len() as int);
    assert(t.take(line.len() as int) =~= line);
    assert(byte_lines(t.skip(line.len() as int + 1)) =~= Seq::empty());
    let one = seq![line];
    assert(byte_lines(t) =~= one);
    readable_both(byte_lines(existing), one);
    vstd::utf8::encode_utf8_valid_utf8(entry);
    vstd::utf8::encode_utf8_decode_utf8(entry);
    assert(one.drop_last().len() == 0);
    assert(one.last() == line);
    assert(readable(one.drop_last()) =~= Seq::<Seq<char>>::empty());
    assert(readable(one) =~= seq![entry]);
    assert(text_lines(existing) + seq![entry] =~= text_lines(existing).push(entry));
    assert(existing =~= appended(existing, entry).subrange(0, existing.len() as int));
}

/// What is left after trimming has no white space at its ends.
pub proof fn trimmed_ends(s: Seq<char>)
    ensures
        trimmed(s).len() > 0 ==> !is_white(trimmed(s)[0]) && !is_white(trimmed(s).last()),
        trimmed(trimmed(s)) == trimmed(s),
        s.len() > 0 && !is_white(s[0]) && !is_white(s.last()) ==> trimmed(s) == s,
        forall|c: char| #[trigger] trimmed(s).contains(c) ==> s.contains(c),
{
    start_is(s);
    end_is(trim_start(s));
    let t = trimmed(s);
    if t.len() > 0 {
        assert(t[0] == trim_start(s)[0]);
        start_is(t);
    }
}

proof fn start_is(s: Seq<char>)
    ensures
        trim_start(s).len() > 0 ==> !is_white(trim_start(s)[0]),
        s.len() > 0 && !is_white(s[0]) ==> trim_start(s) == s,
        forall|c: char| #[trigger] trim_start(s).contains(c) ==> s.contains(c),
    decreases s.len(),
{
    if s.len() > 0 && is_white(s[0]) {
        let r = s.skip(1);
        start_is(r);
        assert forall|c: char| #[trigger] trim_start(s).contains(c) implies s.contains(c) by {
            let i = r.index_of(c);
            assert(r.contains(c));
            assert(s[i + 1] == c);
        }
    }
}

proof fn end_is(s: Seq<char>)
    ensures
        trim_end(s).len() > 0 ==> !is_white(trim_end(s).last()) && trim_end(s)[0] == s[0],
        s.len() > 0 && !is_white(s.last()) ==> trim_end(s) == s,
        trim_end(s).len() <= s.len(),
        forall|c: char| #[trigger] trim_end(s).contains(c) ==> s.contains(c),
    decreases s.len(),
{
    if s.len() > 0 && is_white(s.last()) {
        let r = s.drop_last();
        end_is(r);
        assert forall|c: char| #[trigger] trim_end(s).contains(c) implies s.contains(c) by {
            assert(r.contains(c));
            let i = r.index_of(c);
            assert(s[i] == c);
        }
    }
}

/// What stands before the first newline of a file is its first line, which is read if it is text,
/// and the other lines are those of the rest. A file without a newline is one line, and no bytes
/// none.
pub proof fn text_lines_end_at_newlines(a: Seq<u8>, b: Seq<u8>)
    requires
        !a.contains(10),
    ensures
        valid_utf8(a) ==> text_lines(a + seq![10u8] + b) == seq![decode_utf8(a)] + text_lines(b),
        !valid_utf8(a) ==> text_lines(a + seq![10u8] + b) == text_lines(b),
        a.len() > 0 && valid_utf8(a) ==> text_lines(a) == seq![decode_utf8(a)],
        a.len() > 0 && !valid_utf8(a) ==> text_lines(a).len() == 0,
        text_lines(Seq::<u8>::empty()).len() == 0,
{
    let t = a + seq![10u8] + b;
    assert forall|i: int| 0 <= i < a.len() implies a[i] != 10 && t[i] != 10 by {
        assert(t[i] == a[i]);
        assert(a.contains(a[i]));
    }
    assert(t[a.len() as int] == 10);
    newline_unique(t, a.len() as int);
    newline_unique(a, a.len() as int);
    assert(t.take(a.len() as int) =~= a);
    assert(t.skip(a.len() as int + 1) =~= b);
    let one = seq![a];
    readable_both(one, byte_lines(b));
    assert(one.drop_last() =~= Seq::<Seq<u8>>::empty());
    assert(readable(Seq::<Seq<u8>>::empty()) =~= Seq::<Seq<char>>::empty());
    assert(one.last() == a);
    assert(readable(one) =~= if valid_utf8(a) {
        seq![decode_utf8(a)]
    } else {
        Seq::<Seq<char>>::empty()
    });
    assert(Seq::<Seq<char>>::empty() + text_lines(b) =~= text_lines(b));
}

} // verus!
