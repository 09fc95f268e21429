//! File descriptors beside the byte stream.
//!
//! A descriptor argument leaves only a placeholder among the bytes of its
//! message. The descriptors themselves travel beside the bytes, in the
//! order in which their placeholders stand, and a reader gives the first
//! descriptor to the first placeholder, the second to the second, and so on.

use vstd::prelude::*;
use crate::wire::{arg_values, ArgValue, WireArgument, WireMessage};

verus! {

/// The descriptors that a list of arguments holds, from left to right.
pub open spec fn descriptors(args: Seq<ArgValue>) -> Seq<i32>
    decreases args.len(),
{
    if args.len() == 0 {
        Seq::empty()
    } else {
        let before = descriptors(args.drop_last());
        match args.last() {
            ArgValue::FileDescriptor(fd) => before.push(fd),
            _ => before,
        }
    }
}

/// The arguments with the descriptors of `fds` in the place of their own:
/// the first descriptor argument gets `fds[0]`, the next `fds[1]`, and so on.
pub open spec fn with_descriptors(args: Seq<ArgValue>, fds: Seq<i32>) -> Seq<ArgValue> {
    Seq::new(
        args.len(),
        |i: int|
            match args[i] {
                ArgValue::FileDescriptor(_) => ArgValue::FileDescriptor(
                    fds[descriptors(args.take(i)).len() as int],
                ),
                other => other,
            },
    )
}

/// The descriptors of a longer part of a list begin with those of a shorter.
pub proof fn lemma_descriptors_of_prefix(args: Seq<ArgValue>, i: int)
    requires
        0 <= i <= args.len(),
    ensures
        descriptors(args.take(i)).len() <= descriptors(args).len(),
        descriptors(args.take(i)) == descriptors(args).take(descriptors(args.take(i)).len() as int),
    decreases args.len() - i,
{
    if i == args.len() {
        assert(args.take(i) =~= args);
        assert(descriptors(args).take(descriptors(args).len() as int) =~= descriptors(args));
    } else {
        lemma_descriptors_of_prefix(args, i + 1);
        let longer = args.take(i + 1);
        assert(longer.drop_last() =~= args.take(i));
        let n = descriptors(args.take(i)).len() as int;
        assert(descriptors(args.take(i)) =~= descriptors(longer).take(n));
        assert(descriptors(longer).take(n) =~= descriptors(args).take(
            descriptors(longer).len() as int,
        ).take(n));
        assert(descriptors(args).take(descriptors(longer).len() as int).take(n) =~= descriptors(
            args,
        ).take(n));
    }
}

/// Giving a list its own descriptors back changes nothing, whatever
/// descriptors follow them.
pub proof fn lemma_own_descriptors(args: Seq<ArgValue>, more: Seq<i32>)
    ensures
        with_descriptors(args, descriptors(args) + more) == args,
{
    let fds = descriptors(args) + more;
    assert forall|i: int| 0 <= i < args.len() implies with_descriptors(args, fds)[i]
        == args[i] by {
        match args[i] {
            ArgValue::FileDescriptor(fd) => {
                let longer = args.take(i + 1);
                assert(longer.drop_last() =~= args.take(i));
                assert(longer.last() == args[i]);
                let n = descriptors(args.take(i)).len() as int;
                assert(descriptors(longer)[n] == fd);
                lemma_descriptors_of_prefix(args, i + 1);
                assert(descriptors(args).take(descriptors(longer).len() as int)[n] == fd);
            },
            _ => {},
        }
    }
    assert(with_descriptors(args, fds) =~= args);
}

impl WireMessage {
    /// The descriptors that the message carries, from left to right: what
    /// has to travel beside its bytes.
    pub fn descriptors(&self) -> (fds: Vec<i32>)
        ensures
            fds@ == descriptors(self@.args),
    {
        let mut fds: Vec<i32> = Vec::new();
        let mut i: usize = 0;
        while i < self.args.len()
            invariant
                i <= self.args@.len(),
                fds@ == descriptors(self@.args.take(i as int)),
            decreases self.args@.len() - i,
        {
            assert(self@.args.take(i + 1).drop_last() =~= self@.args.take(i as int));
            match &self.args[i] {
                WireArgument::FileDescriptor(fd) => fds.push(*fd),
                _ => {},
            }
            i += 1;
        }
        assert(self@.args.take(i as int) =~= self@.args);
        fds
    }

    /// Puts the descriptors that came beside the bytes into the message, in
    /// the order of its placeholders, and says how many it took. Where
    /// `fds` holds fewer descriptors than the message has placeholders,
    /// nothing is changed.
    pub fn attach_descriptors(&mut self, fds: &[i32]) -> (taken: Option<usize>)
        ensures
            final(self)@.sender_id == old(self)@.sender_id,
            final(self)@.opcode == old(self)@.opcode,
            match taken {
                Some(n) => {
                    &&& n == descriptors(old(self)@.args).len()
                    &&& n <= fds@.len()
                    &&& final(self)@.args == with_descriptors(old(self)@.args, fds@)
                },
                None => {
                    &&& descriptors(old(self)@.args).len() > fds@.len()
                    &&& final(self)@.args == old(self)@.args
                },
            },
    {
        let ghost given = self@.args;
        let count = self.args.len();
        let mut needed: usize = 0;
        let mut i: usize = 0;
        while i < count
            invariant
                i <= count,
                count == self.args@.len(),
                self@.args == given,
                needed == descriptors(given.take(i as int)).len(),
                needed <= i,
            decreases count - i,
        {
            assert(given.take(i + 1).drop_last() =~= given.take(i as int));
            match &self.args[i] {
                WireArgument::FileDescriptor(_) => {
                    needed += 1;
                },
                _ => {},
            }
            i += 1;
        }
        assert(given.take(i as int) =~= given);
        if needed > fds.len() {
            return None;
        }
        let mut used: usize = 0;
        let mut i: usize = 0;
        while i < count
            invariant
                i <= count,
                count == self.args@.len(),
                count == given.len(),
                self.sender_id == old(self).sender_id,
                self.opcode == old(self).opcode,
                needed == descriptors(given).len(),
                needed <= fds@.len(),
                used == descriptors(given.take(i as int)).len(),
                forall|j: int| 0 <= j < i ==> self@.args[j] == with_descriptors(given, fds@)[j],
                forall|j: int| i <= j < count ==> self@.args[j] == given[j],
            decreases count - i,
        {
            assert(given.take(i + 1).drop_last() =~= given.take(i as int));
            proof {
                lemma_descriptors_of_prefix(given, i + 1);
            }
            let is_descriptor = match &self.args[i] {
                WireArgument::FileDescriptor(_) => true,
                _ => false,
            };
            assert(self@.args[i as int] == given[i as int]);
            if is_descriptor {
                let ghost before = self.args@;
                self.args.set(i, WireArgument::FileDescriptor(fds[used]));
                assert(arg_values(self.args@) =~= arg_values(before).update(
                    i as int,
                    ArgValue::FileDescriptor(fds@[used as int]),
                ));
                used += 1;
            }
            i += 1;
        }
        assert(given.take(i as int) =~= given);
        assert(self@.args =~= with_descriptors(given, fds@));
        Some(needed)
    }
}

} // verus!
