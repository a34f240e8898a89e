use vstd::prelude::*;

verus! {

/// `line` starts a new message of an mbox stream.
pub open spec fn is_separator(line: Seq<u8>) -> bool {
    line.len() >= 5 && line.subrange(0, 5) == seq![70u8, 114u8, 111u8, 109u8, 32u8]
}

/// `line` is a quoted separator, `> From `.
pub open spec fn is_quoted(line: Seq<u8>) -> bool {
    line.len() >= 7 && line.subrange(0, 7) == seq![62u8, 32u8, 70u8, 114u8, 111u8, 109u8, 32u8]
}

/// The message text a body line contributes: quoted separators lose their
/// quote.
pub open spec fn unquote(line: Seq<u8>) -> Seq<u8> {
    if is_quoted(line) {
        line.subrange(2, line.len() as int)
    } else {
        line
    }
}

/// ASCII whitespace as `u8::is_ascii_whitespace` counts it.
pub open spec fn is_space(b: u8) -> bool {
    b == 0x20u8 || b == 0x09u8 || b == 0x0Au8 || b == 0x0Cu8 || b == 0x0Du8
}

pub open spec fn trim_end(s: Seq<u8>) -> Seq<u8>
    decreases s.len(),
{
    if s.len() > 0 && is_space(s.last()) {
        trim_end(s.drop_last())
    } else {
        s
    }
}

pub open spec fn trim_start(s: Seq<u8>) -> Seq<u8>
    decreases s.len(),
{
    if s.len() > 0 && is_space(s[0]) {
        trim_start(s.drop_first())
    } else {
        s
    }
}

/// A finished message: one trailing newline, no leading whitespace.
pub open spec fn finished(msg: Seq<u8>) -> Seq<u8> {
    trim_start(trim_end(msg).push(10u8))
}

fn is_space_exec(b: u8) -> (r: bool)
    ensures
        r == is_space(b),
{
    b == 0x20u8 || b == 0x09u8 || b == 0x0Au8 || b == 0x0Cu8 || b == 0x0Du8
}

fn starts_with(line: &[u8], prefix: &[u8]) -> (r: bool)
    ensures
        r == (line@.len() >= prefix@.len() && line@.subrange(0, prefix@.len() as int) == prefix@),
{
    if line.len() < prefix.len() {
        return false;
    }
    let mut k: usize = 0;
    while k < prefix.len()
        invariant
            prefix@.len() <= line@.len(),
            k <= prefix@.len(),
            forall|j: int| 0 <= j < k ==> line@[j] == prefix@[j],
        decreases prefix@.len() - k,
    {
        if line[k] != prefix[k] {
            assert(line@.subrange(0, prefix@.len() as int)[k as int] != prefix@[k as int]);
            return false;
        }
        k = k + 1;
    }
    assert(line@.subrange(0, prefix@.len() as int) =~= prefix@);
    true
}

/// Splits an mbox stream, fed line by line, into messages.
pub struct MboxSplitter {
    msg: Vec<u8>,
}

impl View for MboxSplitter {
    type V = Seq<u8>;

    /// The text of the message read so far.
    closed spec fn view(&self) -> Seq<u8> {
        self.msg@
    }
}

impl MboxSplitter {
    pub fn new() -> (r: Self)
        ensures
            r@ == Seq::<u8>::empty(),
    {
        MboxSplitter { msg: Vec::new() }
    }

    /// Takes one line, with its newline if it has one; an empty line marks
    /// the end of the stream. Returns the message that the line completes.
    pub fn feed(&mut self, line: &[u8]) -> (r: Option<Vec<u8>>)
        ensures
            (is_separator(line@) || line@.len() == 0) ==> {
                &&& final(self)@ == Seq::<u8>::empty()
                &&& old(self)@.len() == 0 ==> r is None
                &&& old(self)@.len() > 0 ==> (r matches Some(m) && m@ == finished(old(self)@))
            },
            !(is_separator(line@) || line@.len() == 0) ==> r is None && final(self)@ == old(self)@
                + unquote(line@),
    {
        let sep: [u8; 5] = [70u8, 114u8, 111u8, 109u8, 32u8];
        let quoted: [u8; 7] = [62u8, 32u8, 70u8, 114u8, 111u8, 109u8, 32u8];
        proof {
            assert(sep@ =~= seq![70u8, 114u8, 111u8, 109u8, 32u8]);
            assert(quoted@ =~= seq![62u8, 32u8, 70u8, 114u8, 111u8, 109u8, 32u8]);
        }
        if line.len() == 0 || starts_with(line, &sep) {
            if self.msg.len() == 0 {
                return None;
            }
            let m = self.take_finished();
            return Some(m);
        }
        let from: usize = if starts_with(line, &quoted) {
            2
        } else {
            0
        };
        let mut k: usize = from;
        let ghost start = self.msg@;
        while k < line.len()
            invariant
                from <= k <= line@.len(),
                self.msg@ == start + line@.subrange(from as int, k as int),
            decreases line@.len() - k,
        {
            self.msg.push(line[k]);
            k = k + 1;
            assert(self.msg@ =~= start + line@.subrange(from as int, k as int));
        }
        assert(line@.subrange(0, line@.len() as int) =~= line@);
        None
    }

    fn take_finished(&mut self) -> (r: Vec<u8>)
        ensures
            r@ == finished(old(self)@),
            final(self)@ == Seq::<u8>::empty(),
    {
        let mut end: usize = self.msg.len();
        assert(self.msg@.subrange(0, end as int) =~= self.msg@);
        while end > 0 && is_space_exec(self.msg[end - 1])
            invariant
                end <= self.msg@.len(),
                trim_end(self.msg@.subrange(0, end as int)) == trim_end(self.msg@),
            decreases end,
        {
            assert(self.msg@.subrange(0, end as int).drop_last() =~= self.msg@.subrange(0, end - 1));
            end = end - 1;
        }
        assert(trim_end(self.msg@.subrange(0, end as int)) == self.msg@.subrange(0, end as int));
        let ghost t = self.msg@.subrange(0, end as int).push(10u8);
        let mut start: usize = 0;
        assert(t.subrange(0, t.len() as int) =~= t);
        while start < end && is_space_exec(self.msg[start])
            invariant
                start <= end <= self.msg@.len(),
                t == self.msg@.subrange(0, end as int).push(10u8),
                trim_start(t.subrange(start as int, t.len() as int)) == trim_start(t),
            decreases end - start,
        {
            assert(t.subrange(start as int, t.len() as int).drop_first() =~= t.subrange(
                start + 1,
                t.len() as int,
            ));
            start = start + 1;
        }
        let mut out: Vec<u8> = Vec::new();
        if start == end {
            proof {
                let u = t.subrange(start as int, t.len() as int);
                assert(u =~= seq![10u8]);
                assert(u.drop_first() =~= Seq::<u8>::empty());
                assert(is_space(u[0]));
                assert(trim_start(u) == trim_start(u.drop_first()));
                assert(trim_start(Seq::<u8>::empty()) == Seq::<u8>::empty());
                assert(out@ =~= Seq::<u8>::empty());
                assert(trim_end(self.msg@) == self.msg@.subrange(0, end as int));
                assert(finished(self.msg@) == trim_start(t));
            }
            self.msg = Vec::new();
            return out;
        }
        let mut k: usize = start;
        while k < end
            invariant
                start <= k <= end <= self.msg@.len(),
                out@ == self.msg@.subrange(start as int, k as int),
            decreases end - k,
        {
            out.push(self.msg[k]);
            k = k + 1;
            assert(out@ =~= self.msg@.subrange(start as int, k as int));
        }
        out.push(10u8);
        proof {
            assert(t.subrange(start as int, t.len() as int) =~= out@);
            assert(t.subrange(0, t.len() as int) =~= t);
            assert(out@[0] == self.msg@[start as int]);
            assert(trim_start(out@) == out@);
        }
        self.msg = Vec::new();
        out
    }
}

} // verus!
