//! The IRC codec: frames a byte stream into lines and lines into messages,
//! and writes messages back as single sanitised lines.
use vstd::prelude::*;
use crate::message::{encoded, message_text, parse_outcome, IrcError, Message};
use crate::wire::{
    copy_range, find_line_end, is_line_end, lemma_line_len_bounds, line_len, sanitize, terminator_len,
    CR, LF,
};

verus! {

/// Whether the first line of `b` is not whole yet: no terminator has come,
/// or the first one is a CR at the very end, which may be the first half of
/// a CR LF pair.
pub open spec fn awaits_more(b: Seq<u8>) -> bool {
    let p = line_len(b);
    p == b.len() || (b[p as int] == CR && p + 1 == b.len())
}

/// What a decode step gives on the buffer `b` with the line limit `max`, and
/// what is left in the buffer after it. The first line runs up to the first
/// CR LF, CR or LF, which ends it as one terminator; an empty line is parsed
/// like any other (and fails as an empty message).
pub open spec fn decode_outcome(
    r: Result<Option<Message>, IrcError>,
    left: Seq<u8>,
    b: Seq<u8>,
    max: usize,
) -> bool {
    let p = line_len(b);
    if awaits_more(b) {
        left == b && if p > max {
            r == Err::<Option<Message>, IrcError>(IrcError::LineTooLong)
        } else {
            r == Ok::<Option<Message>, IrcError>(None)
        }
    } else {
        left == b.skip((p + terminator_len(b, p as int)) as int) && if p > max {
            r == Err::<Option<Message>, IrcError>(IrcError::LineTooLong)
        } else {
            match r {
                Ok(Some(m)) => parse_outcome(Ok(m), b.take(p as int)),
                Ok(None) => false,
                Err(e) => parse_outcome(Err(e), b.take(p as int)),
            }
        }
    }
}

/// An IRC codec with a limit on the length of a line. Once a decode step
/// fails, the stream is over: every later step fails too.
pub struct IrcCodec {
    max_length: usize,
    failed: bool,
}

impl IrcCodec {
    /// The longest line, in bytes, that the codec accepts.
    pub closed spec fn spec_max_length(&self) -> usize {
        self.max_length
    }

    /// Whether a decode step has failed.
    pub closed spec fn is_failed(&self) -> bool {
        self.failed
    }

    /// A codec that accepts lines of any length.
    pub fn new() -> (r: IrcCodec)
        ensures
            r.spec_max_length() == usize::MAX,
            !r.is_failed(),
    {
        IrcCodec { max_length: usize::MAX, failed: false }
    }

    /// A codec that rejects lines longer than `max_length` bytes.
    pub fn new_with_max_length(max_length: usize) -> (r: IrcCodec)
        ensures
            r.spec_max_length() == max_length,
            !r.is_failed(),
    {
        IrcCodec { max_length, failed: false }
    }

    /// The longest line, in bytes, that the codec accepts.
    pub fn max_length(&self) -> (r: usize)
        ensures
            r == self.spec_max_length(),
    {
        self.max_length
    }

    /// Takes the next message out of `src`. `Ok(None)` means that no whole line
    /// has arrived yet. A line ends at CR LF, CR or LF. An error is final: the
    /// codec keeps failing afterwards and leaves the buffer alone.
    pub fn decode(&mut self, src: &mut Vec<u8>) -> (r: Result<Option<Message>, IrcError>)
        ensures
            final(self).spec_max_length() == old(self).spec_max_length(),
            old(self).is_failed() ==> r == Err::<Option<Message>, IrcError>(IrcError::Failed)
                && final(src)@ == old(src)@ && final(self).is_failed(),
            !old(self).is_failed() ==> decode_outcome(
                r,
                final(src)@,
                old(src)@,
                old(self).spec_max_length(),
            ) && final(self).is_failed() == r is Err,
    {
        if self.failed {
            return Err(IrcError::Failed);
        }
        let r = self.decode_line(src);
        if r.is_err() {
            self.failed = true;
        }
        r
    }

    fn decode_line(&self, src: &mut Vec<u8>) -> (r: Result<Option<Message>, IrcError>)
        ensures
            decode_outcome(r, final(src)@, old(src)@, self.max_length),
    {
        let ghost b = src@;
        let p = find_line_end(src.as_slice());
        proof {
            lemma_line_len_bounds(b);
        }
        if p == src.len() || (src[p] == CR && p + 1 == src.len()) {
            if p > self.max_length {
                return Err(IrcError::LineTooLong);
            }
            return Ok(None);
        }
        let n: usize = if src[p] == CR && src[p + 1] == LF {
            p + 2
        } else {
            p + 1
        };
        assert(n == p + terminator_len(b, p as int));
        let line = copy_range(src.as_slice(), 0, p);
        let left = copy_range(src.as_slice(), n, src.len());
        assert(line@ =~= b.take(p as int));
        assert(left@ =~= b.skip(n as int));
        *src = left;
        if p > self.max_length {
            return Err(IrcError::LineTooLong);
        }
        match Message::parse(line.as_slice()) {
            Ok(m) => Ok(Some(m)),
            Err(e) => Err(e),
        }
    }

    /// Appends `msg` to `dst` as one line: its text is cut after the first
    /// line terminator it holds, and the line is then ended with CR LF.
    pub fn encode(&mut self, msg: Message, dst: &mut Vec<u8>) -> (r: Result<(), IrcError>)
        ensures
            *final(self) == *old(self),
            r is Ok,
            final(dst)@ == old(dst)@ + encoded(msg),
    {
        let mut text = msg.to_text();
        text.push(CR);
        text.push(LF);
        let ghost t = message_text(msg);
        let ghost full = text@;
        proof {
            let crlf = seq![CR, LF];
            assert(full =~= t + crlf);
            assert(crlf[0] == CR);
            assert(line_len(crlf) == 0);
            lemma_line_len_bounds(t);
            lemma_line_len_prefix(t, crlf);
            lemma_line_len_bounds(full);
        }
        let cut = sanitize(text);
        let p = find_line_end(cut.as_slice());
        proof {
            let n = line_len(full);
            assert(n == line_len(t));
            assert(cut@.len() > n);
            assert(cut@[n as int] == full[n as int]);
            assert forall|i: int| 0 <= i < n implies !is_line_end(#[trigger] cut@[i]) by {
                assert(cut@[i] == full[i]);
            }
            lemma_line_len_start(cut@, n);
        }
        let line = copy_range(cut.as_slice(), 0, p);
        assert(line@ =~= t.take(line_len(t) as int));
        let mut i: usize = 0;
        while i < line.len()
            invariant
                i <= line@.len(),
                dst@ == old(dst)@ + line@.take(i as int),
            decreases line@.len() - i,
        {
            dst.push(line[i]);
            i = i + 1;
            assert(dst@ =~= old(dst)@ + line@.take(i as int));
        }
        dst.push(CR);
        dst.push(LF);
        assert(line@.take(line@.len() as int) =~= line@);
        assert(dst@ =~= old(dst)@ + encoded(msg));
        Ok(())
    }
}

/// Appending to a text does not move its first line terminator, and a text
/// without one gets the first terminator of what is appended.
pub proof fn lemma_line_len_prefix(a: Seq<u8>, b: Seq<u8>)
    ensures
        line_len(a) < a.len() ==> line_len(a + b) == line_len(a),
        line_len(a) == a.len() ==> line_len(a + b) == a.len() + line_len(b),
    decreases a.len(),
{
    if a.len() > 0 {
        assert((a + b).drop_first() =~= a.drop_first() + b);
        assert((a + b)[0] == a[0]);
        lemma_line_len_prefix(a.drop_first(), b);
    } else {
        assert(a + b =~= b);
    }
}

/// A text whose first `n` bytes hold no terminator and whose byte at `n` is
/// one has `line_len` equal to `n`.
pub proof fn lemma_line_len_start(s: Seq<u8>, n: nat)
    requires
        n < s.len(),
        is_line_end(s[n as int]),
        forall|i: int| 0 <= i < n ==> !is_line_end(#[trigger] s[i]),
    ensures
        line_len(s) == n,
    decreases n,
{
    if n > 0 {
        assert forall|i: int| 0 <= i < n - 1 implies !is_line_end(#[trigger] s.drop_first()[i]) by {
            assert(s.drop_first()[i] == s[i + 1]);
        }
        lemma_line_len_start(s.drop_first(), (n - 1) as nat);
    }
}

} // verus!

verus! {

/// Whatever text a message holds, what `encode` writes for it is exactly one
/// line: no CR or LF but the CR LF that ends it.
pub proof fn lemma_encoded_is_one_line(m: Message)
    ensures
        encoded(m).len() >= 2,
        encoded(m)[encoded(m).len() - 2] == CR,
        encoded(m)[encoded(m).len() - 1] == LF,
        forall|i: int| 0 <= i < encoded(m).len() - 2 ==> !is_line_end(#[trigger] encoded(m)[i]),
{
    let t = message_text(m);
    lemma_line_len_bounds(t);
    let e = encoded(m);
    assert forall|i: int| 0 <= i < e.len() - 2 implies !is_line_end(#[trigger] e[i]) by {
        assert(e[i] == t[i]);
    }
}

} // verus!
