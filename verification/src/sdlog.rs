//! Adding a line to a log file on the memory card.
//!
//! The card is mounted and unmounted for each line, so that it can be taken out at any
//! time in between. What is done next depends on how the last operation went.

use vstd::prelude::*;

verus! {

/// The log of received frames.
pub const LOG_FILE: &'static str = "NOSTOS.CSV";

/// First line of the log of received frames.
pub const CSV_HEADER: &'static str = "time_unix,seq,fix,home,lat_e7,lon_e7,rssi,snr\n";

/// The log of the device's health.
pub const STATUS_FILE: &'static str = "STATUS.CSV";

/// First line of the log of the device's health.
pub const STATUS_HEADER: &'static str =
    "uptime_s,est_unix,vbat_mv,vin_mv,batt_pct,pwr_src,pwr_cfg,rssi_floor,sx_status,last_rx_age_s,rx_count,frontlight,reset_reason,event\n";

/// An operation on the card.
#[derive(Debug, Clone, Copy, PartialEq, Eq, Structural)]
pub enum Op {
    /// Mount the file system.
    Mount,
    /// Open the file.
    Open,
    /// Create the file.
    Create,
    /// Write the first line.
    WriteHeader,
    /// Go to the end of the file.
    SeekEnd,
    /// Write the line.
    WriteLine,
    /// Flush the file.
    Flush,
    /// Unmount the file system.
    Unmount,
}

/// What to do: an operation, or nothing more, with whether the line was added.
#[derive(Debug, Clone, Copy, PartialEq, Eq, Structural)]
pub enum Next {
    Do(Op),
    Done(bool),
}

/// What follows an operation. `added` says, once the file system is being unmounted,
/// whether the line was added.
pub open spec fn next_op(op: Op, ok: bool, added: bool) -> Next {
    match (op, ok) {
        (Op::Mount, true) => Next::Do(Op::Open),
        (Op::Mount, false) => Next::Done(false),
        (Op::Open, true) => Next::Do(Op::SeekEnd),
        (Op::Open, false) => Next::Do(Op::Create),
        (Op::Create, true) => Next::Do(Op::WriteHeader),
        (Op::WriteHeader, true) => Next::Do(Op::SeekEnd),
        (Op::SeekEnd, true) => Next::Do(Op::WriteLine),
        (Op::WriteLine, true) => Next::Do(Op::Flush),
        (Op::Unmount, _) => Next::Done(added),
        _ => Next::Do(Op::Unmount),
    }
}

/// Whether the line is added once an operation went as it did.
pub open spec fn added_after(op: Op, ok: bool, added: bool) -> bool {
    added || op == Op::Flush && ok
}

/// A line on its way into a file.
pub struct Append {
    op: Op,
    added: bool,
}

impl Append {
    /// The operation under way.
    pub closed spec fn op(self) -> Op {
        self.op
    }

    /// Whether the line was added.
    pub closed spec fn added(self) -> bool {
        self.added
    }

    /// Starts with the first operation.
    pub fn start() -> (r: (Self, Op))
        ensures
            r.0.op() == Op::Mount,
            !r.0.added(),
            r.1 == Op::Mount,
    {
        (Append { op: Op::Mount, added: false }, Op::Mount)
    }

    /// Goes on once the operation under way went well or not.
    pub fn next(&mut self, ok: bool) -> (n: Next)
        ensures
            n == next_op(old(self).op(), ok, old(self).added()),
            n matches Next::Do(op) ==> final(self).op() == op,
            n is Done ==> final(self).op() == old(self).op(),
            final(self).added() == (old(self).added() || old(self).op() == Op::Flush && ok),
            final(self).added() == added_after(old(self).op(), ok, old(self).added()),
    {
        let n: Next = match (self.op, ok) {
            (Op::Mount, true) => Next::Do(Op::Open),
            (Op::Mount, false) => Next::Done(false),
            (Op::Open, true) => Next::Do(Op::SeekEnd),
            (Op::Open, false) => Next::Do(Op::Create),
            (Op::Create, true) => Next::Do(Op::WriteHeader),
            (Op::WriteHeader, true) => Next::Do(Op::SeekEnd),
            (Op::SeekEnd, true) => Next::Do(Op::WriteLine),
            (Op::WriteLine, true) => Next::Do(Op::Flush),
            (Op::Unmount, _) => Next::Done(self.added),
            _ => Next::Do(Op::Unmount),
        };
        if ok {
            if let Op::Flush = self.op {
                self.added = true;
            }
        }
        if let Next::Do(op) = n {
            self.op = op;
        }
        n
    }
}

/// How the operations go on a card, each time they are tried.
pub struct Card {
    pub mount: bool,
    pub open: bool,
    pub create: bool,
    pub header: bool,
    pub seek: bool,
    pub write: bool,
    pub flush: bool,
    pub unmount: bool,
}

impl Card {
    /// How one operation goes.
    pub open spec fn outcome(self, op: Op) -> bool {
        match op {
            Op::Mount => self.mount,
            Op::Open => self.open,
            Op::Create => self.create,
            Op::WriteHeader => self.header,
            Op::SeekEnd => self.seek,
            Op::WriteLine => self.write,
            Op::Flush => self.flush,
            Op::Unmount => self.unmount,
        }
    }

    /// The operations that are made from `op` on, at most `n`, and the result.
    pub open spec fn run(self, op: Op, added: bool, n: nat) -> (Seq<Op>, bool)
        decreases n,
    {
        if n == 0 {
            (Seq::empty(), false)
        } else {
            let ok = self.outcome(op);
            let now = added_after(op, ok, added);
            match next_op(op, ok, added) {
                Next::Done(r) => (seq![op], r),
                Next::Do(next) => {
                    let (rest, r) = self.run(next, now, (n - 1) as nat);
                    (seq![op] + rest, r)
                },
            }
        }
    }
}

/// The end of a run, from the end of the file on.
proof fn lemma_from_seek(c: Card, n: nat)
    requires
        n >= 4,
    ensures
        ({
            let (ops, added) = c.run(Op::SeekEnd, false, n);
            &&& added == (c.seek && c.write && c.flush)
            &&& ops.len() > 0
            &&& ops.last() == Op::Unmount
            &&& !ops.contains(Op::WriteHeader)
        }),
{
    let done = c.run(Op::Unmount, c.flush, (n - 3) as nat);
    assert(done == (seq![Op::Unmount], c.flush));
    let flush = c.run(Op::Flush, false, (n - 2) as nat);
    assert(flush.0 =~= seq![Op::Flush, Op::Unmount]);
    let failed = c.run(Op::Unmount, false, (n - 2) as nat);
    assert(failed == (seq![Op::Unmount], false));
    let write = c.run(Op::WriteLine, false, (n - 1) as nat);
    assert(write.0 =~= seq![Op::WriteLine] + if c.write {
        flush.0
    } else {
        failed.0
    });
    assert(c.run(Op::Unmount, false, (n - 1) as nat) == (seq![Op::Unmount], false));
    let seek = c.run(Op::SeekEnd, false, n);
    assert(seek.0 =~= seq![Op::SeekEnd] + if c.seek {
        write.0
    } else {
        seq![Op::Unmount]
    });
}

/// The run after the card was mounted.
proof fn lemma_from_open(c: Card)
    ensures
        ({
            let (ops, added) = c.run(Op::Open, false, 8);
            &&& added == ((c.open || c.create && c.header) && c.seek && c.write && c.flush)
            &&& ops.len() > 0
            &&& ops.last() == Op::Unmount
            &&& ops.contains(Op::WriteHeader) == (!c.open && c.create)
        }),
{
    lemma_from_seek(c, 5);
    lemma_from_seek(c, 7);
    let seek = c.run(Op::SeekEnd, false, 5).0;
    assert(c.run(Op::Unmount, false, 5) == (seq![Op::Unmount], false));
    let header = c.run(Op::WriteHeader, false, 6);
    assert(header.0 =~= seq![Op::WriteHeader] + if c.header {
        seek
    } else {
        seq![Op::Unmount]
    });
    assert(header.0[0] == Op::WriteHeader);
    assert(c.run(Op::Unmount, false, 6) == (seq![Op::Unmount], false));
    let create = c.run(Op::Create, false, 7);
    assert(create.0 =~= seq![Op::Create] + if c.create {
        header.0
    } else {
        seq![Op::Unmount]
    });
    if c.create {
        assert(create.0[1] == Op::WriteHeader);
    }
    let open = c.run(Op::Open, false, 8);
    let rest = if c.open {
        c.run(Op::SeekEnd, false, 7).0
    } else {
        create.0
    };
    assert(open.0 =~= seq![Op::Open] + rest);
    if !c.open && c.create {
        assert(open.0[2] == Op::WriteHeader);
    }
    if open.0.contains(Op::WriteHeader) {
        let k = open.0.index_of(Op::WriteHeader);
        assert(rest[k - 1] == Op::WriteHeader);
        assert(rest.contains(Op::WriteHeader));
    }
}

/// On every card the run comes to an end. The line is reported as added exactly where the
/// card can be mounted, the file can be opened or else created with its first line, and
/// the line itself is written at the end and flushed. A mounted card is unmounted last,
/// whatever went wrong before. The first line is written exactly where the file was not
/// there and could be created.
pub proof fn law_append(c: Card)
    ensures
        ({
            let (ops, added) = c.run(Op::Mount, false, 9);
            &&& added == (c.mount && (c.open || c.create && c.header) && c.seek && c.write
                && c.flush)
            &&& c.mount ==> ops.last() == Op::Unmount
            &&& !c.mount ==> ops == seq![Op::Mount]
            &&& ops.contains(Op::WriteHeader) == (c.mount && !c.open && c.create)
        }),
{
    lemma_from_open(c);
    let rest = c.run(Op::Open, false, 8).0;
    let ops = c.run(Op::Mount, false, 9).0;
    if c.mount {
        assert(ops =~= seq![Op::Mount] + rest);
        if rest.contains(Op::WriteHeader) {
            let k = rest.index_of(Op::WriteHeader);
            assert(ops[k + 1] == Op::WriteHeader);
        }
        if ops.contains(Op::WriteHeader) {
            let k = ops.index_of(Op::WriteHeader);
            assert(rest[k - 1] == Op::WriteHeader);
        }
    }
}

/// The place of the first partition that is suitable.
pub open spec fn first_of(suitable: Seq<bool>) -> Option<int>
    decreases suitable.len(),
{
    if suitable.len() == 0 {
        None
    } else {
        match first_of(suitable.drop_last()) {
            Some(k) => Some(k),
            None => if suitable.last() {
                Some(suitable.len() - 1)
            } else {
                None
            },
        }
    }
}

/// The first suitable partition is suitable, and none before it is; there is none only
/// where no partition is suitable.
pub proof fn law_first_partition(suitable: Seq<bool>)
    ensures
        match first_of(suitable) {
            Some(k) => 0 <= k < suitable.len() && suitable[k] && forall|j: int|
                0 <= j < k ==> !#[trigger] suitable[j],
            None => forall|j: int| 0 <= j < suitable.len() ==> !#[trigger] suitable[j],
        },
    decreases suitable.len(),
{
    if suitable.len() > 0 {
        let s = suitable.drop_last();
        law_first_partition(s);
        assert(forall|j: int| 0 <= j < s.len() ==> s[j] == #[trigger] suitable[j]);
    }
}

/// The partition to use: the first that holds a FAT file system.
pub fn fat_partition(is_fat: &[bool]) -> (i: Option<usize>)
    ensures
        i is Some <==> first_of(is_fat@) is Some,
        i matches Some(k) ==> first_of(is_fat@) == Some(k as int),
        match i {
            Some(k) => k < is_fat@.len() && is_fat@[k as int] && (forall|j: int|
                0 <= j < k ==> !is_fat@[j]),
            None => forall|j: int| 0 <= j < is_fat@.len() ==> !is_fat@[j],
        },
{
    let mut i: usize = 0;
    while i < is_fat.len()
        invariant
            i <= is_fat@.len(),
            forall|j: int| 0 <= j < i ==> !is_fat@[j],
        decreases is_fat@.len() - i,
    {
        if is_fat[i] {
            proof {
                law_first_partition(is_fat@);
            }
            return Some(i);
        }
        i += 1;
    }
    proof {
        law_first_partition(is_fat@);
    }
    None
}

/// Where everything succeeds, a line is added in this order and no other: the card is
/// mounted, the file opened, or else created with its first line, its end sought, the line
/// written there and flushed, and the card unmounted.
pub proof fn law_append_in_order(c: Card)
    requires
        c.mount && c.seek && c.write && c.flush,
        c.open || c.create && c.header,
    ensures
        c.run(Op::Mount, false, 9).0 == seq![Op::Mount, Op::Open] + (if c.open {
            Seq::empty()
        } else {
            seq![Op::Create, Op::WriteHeader]
        }) + seq![Op::SeekEnd, Op::WriteLine, Op::Flush, Op::Unmount],
{
    reveal_with_fuel(Card::run, 10);
    let tail = seq![Op::SeekEnd, Op::WriteLine, Op::Flush, Op::Unmount];
    let ops = c.run(Op::Mount, false, 9).0;
    if c.open {
        assert(ops =~= seq![Op::Mount, Op::Open] + Seq::empty() + tail);
    } else {
        assert(ops =~= seq![Op::Mount, Op::Open] + seq![Op::Create, Op::WriteHeader] + tail);
    }
}

/// After a failure nothing more is tried on the card but to unmount it; only a file that
/// cannot be opened is created instead, and a card that cannot be mounted is left alone.
/// The line counts as added by what was flushed, whether or not unmounting fails.
pub proof fn law_failure_unmounts(op: Op, ok: bool, added: bool)
    ensures
        !ok && op != Op::Mount && op != Op::Open && op != Op::Unmount ==> next_op(op, ok, added)
            == Next::Do(Op::Unmount),
        next_op(Op::Mount, false, added) == Next::Done(false),
        next_op(Op::Open, false, added) == Next::Do(Op::Create),
        next_op(Op::Unmount, ok, added) == Next::Done(added),
        next_op(op, ok, added) == Next::Do(Op::WriteLine) <==> op == Op::SeekEnd && ok,
        next_op(op, ok, added) == Next::Do(Op::Flush) <==> op == Op::WriteLine && ok,
        next_op(op, ok, added) == Next::Do(Op::WriteHeader) <==> op == Op::Create && ok,
{
}

/// A line once added stays added, and only flushing it adds it.
pub proof fn law_flushed_is_added(op: Op, ok: bool)
    ensures
        added_after(op, ok, true),
        added_after(op, ok, false) <==> ok && op == Op::Flush,
{
}

} // verus!
