use vstd::prelude::*;
use crate::types::disk::Disk;
use crate::types::errors::TowerError;

verus! {

/// Whether each size in `stack` is strictly smaller than every size below
/// it. The bottom of the stack comes first.
pub open spec fn descending(stack: Seq<u8>) -> bool {
    forall|i: int, j: int| 0 <= i < j < stack.len() ==> stack[i] > stack[j]
}

/// Whether a disk of size `size` may be laid on `stack`: the stack is
/// empty, or its top disk is strictly larger.
pub open spec fn fits(stack: Seq<u8>, size: u8) -> bool {
    stack.len() == 0 || stack.last() > size
}

/// The stack after an attempt to lay a disk of size `size` on it.
pub open spec fn pushed(stack: Seq<u8>, size: u8) -> Seq<u8> {
    if fits(stack, size) {
        stack.push(size)
    } else {
        stack
    }
}

/// The stack after an attempt to lift its top disk.
pub open spec fn popped(stack: Seq<u8>) -> Seq<u8> {
    if stack.len() > 0 {
        stack.drop_last()
    } else {
        stack
    }
}

/// One attempt to change a stack.
pub enum Attempt {
    /// Lay a disk of this size on the stack.
    Push(u8),
    /// Lift the top disk.
    Pop,
}

/// The stack after one attempt.
pub open spec fn attempted(stack: Seq<u8>, attempt: Attempt) -> Seq<u8> {
    match attempt {
        Attempt::Push(size) => pushed(stack, size),
        Attempt::Pop => popped(stack),
    }
}

/// The stack after the given attempts, made one after the other.
pub open spec fn replayed(stack: Seq<u8>, attempts: Seq<Attempt>) -> Seq<u8>
    decreases attempts.len(),
{
    if attempts.len() == 0 {
        stack
    } else {
        attempted(replayed(stack, attempts.drop_last()), attempts.last())
    }
}

/// Whatever is pushed and popped, in whatever order, a stack in which each
/// disk is smaller than the one beneath it stays such a stack.
pub proof fn lemma_stack_stays_descending(stack: Seq<u8>, attempts: Seq<Attempt>)
    requires
        descending(stack),
    ensures
        descending(replayed(stack, attempts)),
    decreases attempts.len(),
{
    if attempts.len() > 0 {
        lemma_stack_stays_descending(stack, attempts.drop_last());
    }
}

/// Two stacks of the same disks, in each of which every disk is smaller
/// than the one beneath it, are the same stack.
pub proof fn lemma_descending_unique(a: Seq<u8>, b: Seq<u8>)
    requires
        descending(a),
        descending(b),
        a.to_multiset() == b.to_multiset(),
    ensures
        a == b,
    decreases a.len(),
{
    a.to_multiset_ensures();
    b.to_multiset_ensures();
    if a.len() == 0 {
        assert(a =~= b);
    } else {
        let x = a.last();
        let y = b.last();
        assert(a.contains(x) && a.to_multiset().count(x) > 0);
        assert(b.contains(y) && b.to_multiset().count(y) > 0);
        assert(b.to_multiset().count(x) > 0 && b.contains(x));
        assert(a.to_multiset().count(y) > 0 && a.contains(y));
        assert(x == y);
        a.drop_last().to_multiset_ensures();
        b.drop_last().to_multiset_ensures();
        assert(a.drop_last().push(x) =~= a);
        assert(b.drop_last().push(y) =~= b);
        assert(a.drop_last().to_multiset() =~= a.to_multiset().remove(x));
        assert(b.drop_last().to_multiset() =~= b.to_multiset().remove(x));
        lemma_descending_unique(a.drop_last(), b.drop_last());
        assert(a =~= b);
    }
}

/// The sizes of the given disks, in their order.
pub open spec fn sizes_of(disks: Seq<Disk>) -> Seq<u8> {
    disks.map_values(|d: Disk| d.size())
}

/// One of the pegs of the puzzle, with the disks stacked on it.
#[derive(Debug)]
pub struct Tower {
    id: u8,
    disks: Vec<Disk>,
}

impl View for Tower {
    type V = Seq<u8>;

    /// The sizes of the disks on the tower, from the bottom to the top.
    closed spec fn view(&self) -> Seq<u8> {
        sizes_of(self.disks@)
    }
}

impl Tower {
    /// The identity of the tower, as contracts see it.
    pub closed spec fn spec_id(&self) -> u8 {
        self.id
    }

    /// Each disk on the tower is strictly smaller than the one beneath it.
    pub open spec fn wf(&self) -> bool {
        descending(self@)
    }

    /// Makes an empty tower with the given identity.
    pub fn new(id: u8) -> (tower: Tower)
        ensures
            tower.id() == id,
            tower@ == Seq::<u8>::empty(),
            tower.wf(),
    {
        Tower { id, disks: Vec::new() }
    }

    /// The identity of the tower.
    #[verifier::when_used_as_spec(spec_id)]
    pub fn id(&self) -> (id: u8)
        ensures
            id == self.id(),
    {
        self.id
    }

    /// The number of disks on the tower.
    pub fn len(&self) -> (len: usize)
        ensures
            len == self@.len(),
    {
        self.disks.len()
    }

    /// The disks on the tower, from the bottom to the top.
    pub fn disks(&self) -> (disks: &Vec<Disk>)
        ensures
            sizes_of(disks@) == self@,
    {
        &self.disks
    }

    /// The sizes of the disks on the tower, from the bottom to the top.
    pub fn sizes(&self) -> (sizes: Vec<u8>)
        ensures
            sizes@ == self@,
    {
        let mut sizes: Vec<u8> = Vec::new();
        let mut i: usize = 0;
        while i < self.disks.len()
            invariant
                i <= self.disks.len(),
                sizes@ == self@.take(i as int),
            decreases self.disks.len() - i,
        {
            sizes.push(self.disks[i].size());
            i = i + 1;
        }
        sizes
    }

    /// The disk on top of the tower, which stays where it is.
    pub fn peek(&self) -> (top: Option<&Disk>)
        ensures
            self@.len() == 0 ==> top is None,
            self@.len() > 0 ==> top is Some && top->0.size() == self@.last(),
    {
        self.disks.last()
    }

    /// Whether the tower accepts the disk: it is empty, or its top disk is
    /// strictly larger.
    pub fn can_fit(&self, disk: &Disk) -> (fit: bool)
        ensures
            fit == fits(self@, disk.size()),
    {
        match self.peek() {
            Some(d) => d.size() > disk.size(),
            None => true,
        }
    }

    /// Lays the disk on top of the tower if it fits. A disk that does not
    /// fit comes back to the caller and the tower stays as it was.
    pub fn push(&mut self, disk: Disk) -> (r: Result<(), (TowerError, Disk)>)
        ensures
            final(self).id() == old(self).id(),
            final(self)@ == pushed(old(self)@, disk.size()),
            fits(old(self)@, disk.size()) ==> r is Ok,
            !fits(old(self)@, disk.size()) ==> r == Err::<(), (TowerError, Disk)>(
                (TowerError::SmallerDiskOnTower, disk),
            ),
            old(self).wf() ==> final(self).wf(),
    {
        if self.can_fit(&disk) {
            self.disks.push(disk);
            assert(sizes_of(self.disks@) =~= sizes_of(old(self).disks@).push(disk.size()));
            Ok(())
        } else {
            Err((TowerError::SmallerDiskOnTower, disk))
        }
    }

    /// Lifts the top disk off the tower and hands it over. An empty tower
    /// stays empty.
    pub fn pop(&mut self) -> (r: Result<Disk, TowerError>)
        ensures
            final(self).id() == old(self).id(),
            final(self)@ == popped(old(self)@),
            old(self)@.len() > 0 ==> r is Ok && r->Ok_0.size() == old(self)@.last(),
            old(self)@.len() == 0 ==> r == Err::<Disk, TowerError>(TowerError::NoDisksOnTower),
            old(self).wf() ==> final(self).wf(),
    {
        match self.disks.pop() {
            Some(disk) => {
                assert(sizes_of(self.disks@) =~= sizes_of(old(self).disks@).drop_last());
                Ok(disk)
            },
            None => Err(TowerError::NoDisksOnTower),
        }
    }
}

} // verus!
