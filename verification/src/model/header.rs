//! Reading a header piece by piece.
//!
//! How long a header is shows only while it is read. So its front is parsed; where that ends
//! too early, the parser says how far it has to reach, and more is brought in. Everything is
//! decided here, and nothing but the bringing in is left to the caller.

use vstd::prelude::*;
use crate::model::gguf::{self, Gguf, GgufError};
use crate::model::remote::{self, Plan, PlanView, RemoteFile, RemoteView, MAX_FETCH};
use crate::model::safetensors::{self, ErrorView, Safetensors, SafetensorsError};
use crate::model::shape;

verus! {

/// What reading a header comes to.
#[derive(Debug)]
pub enum Step<T> {
    /// The header was read.
    Done(T),
    /// The bytes from the start of the file up to and with offset `end` have to be fetched.
    Fetch { end: u64 },
    /// It cannot be read, and why.
    Failed(String),
}

/// The format of a header, as far as it shows in what is said of a failed read.
#[derive(Debug, Clone, Copy, PartialEq, Eq, Structural)]
pub enum Kind {
    Gguf,
    Safetensors,
}

/// What stands before the reason of a failed read.
pub open spec fn failure_prefix(kind: Kind) -> Seq<char> {
    match kind {
        Kind::Gguf => "io error: "@,
        Kind::Safetensors => "reading safetensors header: "@,
    }
}

/// What is said of a header whose bytes could not be had.
pub fn failure(kind: Kind, why: &str) -> (r: String)
    ensures
        r@ == failure_prefix(kind) + why@,
{
    let mut s = String::from_str(
        match kind {
            Kind::Gguf => "io error: ",
            Kind::Safetensors => "reading safetensors header: ",
        },
    );
    s.append(why);
    s
}

/// What follows when the first `needed` bytes of a file are wanted and `asked` bytes were asked
/// for before: a fetch, or the end of it. What was asked for and did not come is beyond the
/// end of the file.
pub open spec fn further(f: RemoteView, asked: nat, needed: nat, kind: Kind) -> Result<
    u64,
    Seq<char>,
> {
    if needed <= asked {
        Err(failure_prefix(kind) + "failed to fill whole buffer"@)
    } else {
        match f.reach(needed) {
            PlanView::Fetch { end } => Ok(end),
            PlanView::Ready => Err(failure_prefix(kind) + "failed to fill whole buffer"@),
            PlanView::Refuse(why) => Err(failure_prefix(kind) + why),
        }
    }
}

/// The header of a remote file, as it is being read.
#[derive(Debug)]
pub struct HeaderRead {
    file: RemoteFile,
    /// How far was asked for so far.
    asked: u64,
}

impl HeaderRead {
    /// What is held of the file.
    pub closed spec fn remote(self) -> RemoteView {
        self.file@
    }

    /// How far was asked for so far.
    pub closed spec fn asked_for(self) -> nat {
        self.asked as nat
    }

    /// The file is in order.
    pub closed spec fn inv(self) -> bool {
        self.file.inv()
    }

    /// A header of which nothing is known yet.
    pub fn new(url: String) -> (r: Self)
        ensures
            r.inv(),
            r.remote() == (RemoteView {
                url: url@,
                buf: Seq::empty(),
                pos: 0,
                total: None,
                fetched: 0,
            }),
            r.asked_for() == 0,
    {
        HeaderRead { file: RemoteFile::new(url), asked: 0 }
    }

    /// Total bytes transferred so far.
    pub fn bytes_fetched(&self) -> (r: u64)
        ensures
            r == self.remote().fetched,
    {
        self.file.bytes_fetched()
    }

    /// The URL being read.
    pub fn url(&self) -> (r: &str)
        ensures
            r@ == self.remote().url,
    {
        self.file.url()
    }

    /// Takes in what a fetch from the start of the file brought.
    pub fn absorb(&mut self, body: Vec<u8>, total: Option<u64>)
        requires
            old(self).inv(),
            body@.len() <= isize::MAX,
            old(self).remote().fetched + body@.len() <= u64::MAX,
        ensures
            final(self).inv(),
            final(self).asked_for() == old(self).asked_for(),
            final(self).remote() == (RemoteView {
                buf: body@,
                total: if total is Some {
                    total
                } else {
                    old(self).remote().total
                },
                fetched: old(self).remote().fetched + body@.len(),
                ..old(self).remote()
            }),
    {
        self.file.absorb(body, total);
    }

    /// Takes in a front of the file that was at hand already: nothing was transferred.
    pub fn restore(&mut self, body: Vec<u8>, total: Option<u64>)
        requires
            old(self).inv(),
            body@.len() <= isize::MAX,
        ensures
            final(self).inv(),
            final(self).asked_for() == old(self).asked_for(),
            final(self).remote() == (RemoteView {
                buf: body@,
                total: if total is Some {
                    total
                } else {
                    old(self).remote().total
                },
                ..old(self).remote()
            }),
    {
        self.file.restore(body, total);
    }

    fn go_on(&mut self, needed: u64, kind: Kind) -> (r: Result<u64, String>)
        requires
            old(self).inv(),
        ensures
            final(self).inv(),
            final(self).remote() == old(self).remote(),
            match r {
                Ok(end) => {
                    &&& further(old(self).remote(), old(self).asked_for(), needed as nat, kind)
                        == Ok::<u64, Seq<char>>(end)
                    &&& final(self).asked_for() == needed
                },
                Err(why) => {
                    &&& further(old(self).remote(), old(self).asked_for(), needed as nat, kind)
                        == Err::<u64, Seq<char>>(why@)
                    &&& final(self).asked_for() == old(self).asked_for()
                },
            },
    {
        if needed <= self.asked {
            return Err(failure(kind, "failed to fill whole buffer"));
        }
        match self.file.reach(needed) {
            Plan::Fetch { end } => {
                self.asked = needed;
                Ok(end)
            },
            Plan::Ready => Err(failure(kind, "failed to fill whole buffer")),
            Plan::Refuse(why) => Err(failure(kind, why.as_str())),
        }
    }

    /// Reads the GGUF directory out of what is held, or says what to fetch for it.
    ///
    /// Every fetch is for more than the one before it, and never for more than the ceiling: it
    /// comes to an end.
    pub fn gguf(&mut self) -> (r: Step<Gguf>)
        requires
            old(self).inv(),
        ensures
            final(self).inv(),
            final(self).remote() == old(self).remote(),
            match (gguf::directory(old(self).remote().buf), r) {
                (Ok(g), Step::Done(d)) => d@ == g,
                (Err(GgufError::Truncated { needed }), Step::Fetch { end }) => {
                    &&& further(
                        old(self).remote(),
                        old(self).asked_for(),
                        needed as nat,
                        Kind::Gguf,
                    ) == Ok::<u64, Seq<char>>(end)
                    &&& final(self).asked_for() == needed
                },
                (Err(GgufError::Truncated { needed }), Step::Failed(why)) => further(
                    old(self).remote(),
                    old(self).asked_for(),
                    needed as nat,
                    Kind::Gguf,
                ) == Err::<u64, Seq<char>>(why@),
                (Err(e), Step::Failed(why)) => why@ == e.text(),
                _ => false,
            },
            r is Fetch ==> old(self).asked_for() < final(self).asked_for() <= MAX_FETCH,
            !(r is Fetch) ==> final(self).asked_for() == old(self).asked_for(),
    {
        match Gguf::parse(self.file.held()) {
            Ok(g) => Step::Done(g),
            Err(GgufError::Truncated { needed }) => {
                proof {
                    remote::lemma_fetches_are_bounded(self.remote(), needed as nat);
                }
                match self.go_on(needed, Kind::Gguf) {
                    Ok(end) => Step::Fetch { end },
                    Err(why) => Step::Failed(why),
                }
            },
            Err(e) => Step::Failed(e.message()),
        }
    }

    /// Reads the safetensors header out of what is held, or says what to fetch for it.
    ///
    /// Every fetch is for more than the one before it, and never for more than the ceiling: it
    /// comes to an end.
    pub fn safetensors(&mut self) -> (r: Step<Safetensors>)
        requires
            old(self).inv(),
        ensures
            final(self).inv(),
            final(self).remote() == old(self).remote(),
            match (safetensors::file_tensors(old(self).remote().buf), r) {
                (Ok(t), Step::Done(d)) => {
                    &&& shape::entries_view(d.tensors@) == t
                    &&& d.total_bytes == shape::entry_bytes(t)
                },
                (Err(ErrorView::Truncated { needed }), Step::Fetch { end }) => {
                    &&& further(
                        old(self).remote(),
                        old(self).asked_for(),
                        needed as nat,
                        Kind::Safetensors,
                    ) == Ok::<u64, Seq<char>>(end)
                    &&& final(self).asked_for() == needed
                },
                (Err(ErrorView::Truncated { needed }), Step::Failed(why)) => further(
                    old(self).remote(),
                    old(self).asked_for(),
                    needed as nat,
                    Kind::Safetensors,
                ) == Err::<u64, Seq<char>>(why@),
                (Err(e), Step::Failed(why)) => why@ == e.text(),
                _ => false,
            },
            r is Fetch ==> old(self).asked_for() < final(self).asked_for() <= MAX_FETCH,
            !(r is Fetch) ==> final(self).asked_for() == old(self).asked_for(),
    {
        match Safetensors::parse(self.file.held()) {
            Ok(st) => Step::Done(st),
            Err(SafetensorsError::Truncated { needed }) => {
                proof {
                    remote::lemma_fetches_are_bounded(self.remote(), needed as nat);
                }
                match self.go_on(needed, Kind::Safetensors) {
                    Ok(end) => Step::Fetch { end },
                    Err(why) => Step::Failed(why),
                }
            },
            Err(e) => Step::Failed(e.message()),
        }
    }
}

/// How much of the front of a local file of `len` bytes to read next, when `held` bytes are at
/// hand and the first `needed` are wanted: twice as much as before, or what is wanted if that is
/// more, as far as the file goes. Nothing, where the file is too short.
pub fn next_front(held: u64, needed: u64, len: u64) -> (r: Option<u64>)
    ensures
        match r {
            Some(n) => {
                &&& needed <= len
                &&& n == shape::at_most(
                    if 2 * held > needed {
                        2 * held
                    } else {
                        needed as int
                    },
                    len as int,
                )
                &&& n >= needed
            },
            None => needed > len,
        },
{
    if needed > len {
        return None;
    }
    let twice = held.saturating_add(held);
    let n = if twice > needed {
        twice
    } else {
        needed
    };
    Some(
        if n > len {
            len
        } else {
            n
        },
    )
}

/// A remote file reads as the same file does on disk: a header that was read out of a front
/// of the file, or refused for anything but its length, is what the whole file gives.
pub proof fn lemma_remote_reads_like_local(file: Seq<u8>, held: nat)
    requires
        held <= file.len() <= i64::MAX,
    ensures
        !(gguf::directory(file.take(held as int)) matches Err(GgufError::Truncated { .. }))
            ==> gguf::directory(file.take(held as int)) == gguf::directory(file),
        !(safetensors::file_tensors(file.take(held as int)) matches Err(ErrorView::Truncated { .. }))
            ==> safetensors::file_tensors(file.take(held as int)) == safetensors::file_tensors(
            file,
        ),
{
    let front = file.take(held as int);
    let rest = file.skip(held as int);
    assert(front + rest =~= file);
    gguf::lemma_front_is_enough(front, rest);
    safetensors::lemma_front_is_enough(front, rest);
}

/// Reading goes on only for more than was asked for before, with a fetch that reaches what is
/// needed and stays within 64 MiB; asking again for what did not come is the end of it.
pub proof fn lemma_reading_goes_on_or_ends(f: RemoteView, asked: nat, needed: nat, kind: Kind)
    ensures
        further(f, asked, needed, kind) matches Ok(end) ==> {
            &&& asked < needed <= end + 1
            &&& f.buf.len() < needed
            &&& end + 1 <= 64 * 1024 * 1024
        },
        needed <= asked ==> further(f, asked, needed, kind) is Err,
        needed > asked && f.buf.len() == 0 && f.total is None && needed <= 1024 * 1024 ==> further(
            f,
            asked,
            needed,
            kind,
        ) == Ok::<u64, Seq<char>>((1024 * 1024 - 1) as u64),
{
    remote::lemma_fetches_are_no_larger_than_needed(f, needed);
}

} // verus!
