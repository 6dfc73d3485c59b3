//! Physical addresses, physical regions and fixed-capacity lists.
use vstd::prelude::*;
use vstd::std_specs::slice::spec_slice_iter;
use vstd::string::StringExecFns;
use crate::text::{append_decimal, append_hex, dec_text, hex_text};
use crate::page::{is_pow2, round_up, lemma_pow2_mask, lemma_round_up, u64_is_power_of_two};

verus! {

#[derive(Debug, Clone, Copy, PartialEq, Eq, Structural, PartialOrd, Ord)]
pub struct PhysAddr(u64);

impl View for PhysAddr {
    type V = u64;

    closed spec fn view(&self) -> u64 {
        self.0
    }
}

impl PhysAddr {
    pub fn new(value: u64) -> (r: Self)
        ensures
            r@ == value,
    {
        PhysAddr(value)
    }

    pub fn value(self) -> (r: u64)
        ensures
            r == self@,
    {
        self.0
    }

    pub fn checked_add(self, offset: u64) -> (r: Option<Self>)
        ensures
            r == (if self@ + offset <= u64::MAX {
                Some(PhysAddr::spec_new((self@ + offset) as u64))
            } else {
                None::<PhysAddr>
            }),
    {
        match self.0.checked_add(offset) {
            Some(value) => Some(PhysAddr(value)),
            None => None,
        }
    }

    /// The address whose value is `value`.
    pub closed spec fn spec_new(value: u64) -> PhysAddr {
        PhysAddr(value)
    }

    pub broadcast proof fn lemma_spec_new(value: u64)
        ensures
            #[trigger] PhysAddr::spec_new(value)@ == value,
    {
    }

    /// An address is the one made from its value.
    pub broadcast proof fn lemma_view_spec_new(p: PhysAddr)
        ensures
            #[trigger] PhysAddr::spec_new(p@) == p,
    {
    }

    /// Two addresses with the same value are the same address.
    pub broadcast proof fn lemma_view_injective(a: PhysAddr, b: PhysAddr)
        ensures
            #![trigger a@, b@]
            a@ == b@ ==> a == b,
    {
    }
}

#[derive(Debug, Clone, Copy, PartialEq, Eq, Structural)]
pub enum RegionError {
    Empty,
    EndBeforeStart,
    AddressOverflow,
    InvalidAlignment,
}

/// A non-empty physical range `[start, start + size)` that does not wrap.
#[derive(Debug, Clone, Copy, PartialEq, Eq, Structural)]
pub struct PhysRegion {
    start: PhysAddr,
    size: u64,
}

impl PhysRegion {
    #[verifier::type_invariant]
    closed spec fn inv(self) -> bool {
        self.wf()
    }

    pub closed spec fn start_spec(self) -> u64 {
        self.start.0
    }

    pub closed spec fn size_spec(self) -> u64 {
        self.size
    }

    pub open spec fn end_spec(self) -> int {
        self.start_spec() + self.size_spec()
    }

    /// Construction guarantees this of every region.
    pub open spec fn wf(self) -> bool {
        self.size_spec() > 0 && self.end_spec() <= u64::MAX
    }

    pub open spec fn contains_spec(self, address: int) -> bool {
        self.start_spec() <= address < self.end_spec()
    }

    /// The region `[start, start + size)`.
    pub closed spec fn spec_new(start: u64, size: u64) -> PhysRegion {
        PhysRegion { start: PhysAddr(start), size }
    }

    pub broadcast proof fn lemma_spec_new(start: u64, size: u64)
        ensures
            #![trigger PhysRegion::spec_new(start, size)]
            PhysRegion::spec_new(start, size).start_spec() == start,
            PhysRegion::spec_new(start, size).size_spec() == size,
    {
    }

    /// A region is determined by its start and size.
    pub broadcast proof fn lemma_ext(a: PhysRegion, b: PhysRegion)
        ensures
            #![trigger a.start_spec(), b.start_spec(), a.size_spec(), b.size_spec()]
            a.start_spec() == b.start_spec() && a.size_spec() == b.size_spec() ==> a == b,
    {
    }

    /// Exposes the construction invariant of an executable region.
    pub fn well_formed(&self) -> (r: bool)
        ensures
            r,
            self.wf(),
    {
        proof {
            use_type_invariant(self);
        }
        true
    }

    pub fn new(start: PhysAddr, size: u64) -> (r: Result<Self, RegionError>)
        ensures
            r == (if size == 0 {
                Err::<PhysRegion, RegionError>(RegionError::Empty)
            } else if start@ + size > u64::MAX {
                Err(RegionError::AddressOverflow)
            } else {
                Ok(PhysRegion::spec_new(start@, size))
            }),
    {
        if size == 0 {
            return Err(RegionError::Empty);
        }
        if start.checked_add(size).is_none() {
            return Err(RegionError::AddressOverflow);
        }
        Ok(PhysRegion { start, size })
    }

    /// Rounds `[start, start + size)` outward to `alignment`.
    pub fn new_aligned(start: PhysAddr, size: u64, alignment: u64) -> (r: Result<
        Self,
        RegionError,
    >)
        ensures
            r == (if size == 0 {
                Err::<PhysRegion, RegionError>(RegionError::Empty)
            } else if !is_pow2(alignment as int) {
                Err(RegionError::InvalidAlignment)
            } else if start@ + size + alignment - 1 > u64::MAX {
                Err(RegionError::AddressOverflow)
            } else {
                Ok(
                    PhysRegion::spec_new(
                        (start@ - start@ % alignment) as u64,
                        (round_up(start@ + size, alignment as int) - (start@ - start@
                            % alignment)) as u64,
                    ),
                )
            }),
    {
        if size == 0 {
            return Err(RegionError::Empty);
        }
        if !u64_is_power_of_two(alignment) {
            return Err(RegionError::InvalidAlignment);
        }
        proof {
            lemma_pow2_mask(start.0, alignment);
        }
        let aligned_start = start.0 & !(alignment - 1);
        let end = match start.0.checked_add(size) {
            Some(end) => end,
            None => {
                return Err(RegionError::AddressOverflow);
            },
        };
        let aligned_end = match end.checked_add(alignment - 1) {
            Some(v) => {
                proof {
                    lemma_pow2_mask(v, alignment);
                    lemma_round_up(end as int, alignment as int);
                }
                v & !(alignment - 1)
            },
            None => {
                return Err(RegionError::AddressOverflow);
            },
        };
        Ok(PhysRegion { start: PhysAddr(aligned_start), size: aligned_end - aligned_start })
    }

    pub fn from_bounds(start: PhysAddr, end: PhysAddr) -> (r: Result<Self, RegionError>)
        ensures
            r == (if end@ < start@ {
                Err::<PhysRegion, RegionError>(RegionError::EndBeforeStart)
            } else if end@ == start@ {
                Err(RegionError::Empty)
            } else {
                Ok(PhysRegion::spec_new(start@, (end@ - start@) as u64))
            }),
    {
        if end.value() < start.value() {
            return Err(RegionError::EndBeforeStart);
        }
        if end.value() == start.value() {
            return Err(RegionError::Empty);
        }
        Self::new(start, end.value() - start.value())
    }

    pub fn start(self) -> (r: PhysAddr)
        ensures
            r@ == self.start_spec(),
    {
        self.start
    }

    pub fn size(self) -> (r: u64)
        ensures
            r == self.size_spec(),
    {
        self.size
    }

    pub fn end(self) -> (r: PhysAddr)
        ensures
            r@ == self.end_spec(),
    {
        proof {
            use_type_invariant(&self);
        }
        PhysAddr(self.start.0 + self.size)
    }

    pub fn contains_address(self, address: PhysAddr) -> (r: bool)
        ensures
            r == self.contains_spec(address@ as int),
    {
        address.value() >= self.start.value() && address.value() < self.end().value()
    }

    pub fn contains_region(self, other: Self) -> (r: bool)
        ensures
            r == (self.start_spec() <= other.start_spec() && other.end_spec() <= self.end_spec()),
    {
        other.start.value() >= self.start.value() && other.end().value() <= self.end().value()
    }

    pub fn overlaps(self, other: Self) -> (r: bool)
        ensures
            r == (self.start_spec() < other.end_spec() && other.start_spec() < self.end_spec()),
    {
        self.start.value() < other.end().value() && other.start.value() < self.end().value()
    }

    pub fn is_adjacent(self, other: Self) -> (r: bool)
        ensures
            r == (self.end_spec() == other.start_spec() || other.end_spec()
                == self.start_spec()),
    {
        self.end().value() == other.start.value() || other.end().value() == self.start.value()
    }
}

#[derive(Debug, Clone, Copy, PartialEq, Eq, Structural)]
pub struct CapacityError {
    pub capacity: usize,
}

impl CapacityError {
    pub closed spec fn capacity_spec(self) -> usize {
        self.capacity
    }

    pub fn capacity(self) -> (r: usize)
        ensures
            r == self.capacity_spec(),
    {
        self.capacity
    }
}

/// `r` is the error of a full list of capacity `n`.
pub open spec fn is_capacity_error<A>(r: Result<A, CapacityError>, n: usize) -> bool {
    match r {
        Err(e) => e.capacity_spec() == n,
        Ok(_) => false,
    }
}

/// An ordered list of at most `N` entries, kept in place: the first `len`
/// slots hold the entries, the rest are free.
#[derive(Debug, Copy)]
pub struct FixedList<T: Copy, const N: usize> {
    entries: [Option<T>; N],
    len: usize,
}

impl<T: Copy, const N: usize> FixedList<T, N> {
    /// At most `N` entries, each in a filled slot.
    #[verifier::type_invariant]
    spec fn filled(self) -> bool {
        &&& self.len <= N
        &&& forall|i: int| 0 <= i < self.len ==> (#[trigger] self.entries@[i]) is Some
    }
}

impl<T: Copy, const N: usize> Clone for FixedList<T, N> {
    fn clone(&self) -> (r: Self)
        ensures
            r@ == self@,
    {
        proof {
            use_type_invariant(self);
        }
        FixedList { entries: self.entries, len: self.len }
    }
}

/// The value in a filled slot, to be changed in place.
fn slot_mut<T>(slot: &mut Option<T>) -> (r: Option<&mut T>)
    ensures
        (match *old(slot) {
            None => r is None && *final(slot) == *old(slot),
            Some(v) => r matches Some(x) && *x == v && *final(slot) == Some(*final(x)),
        }),
    no_unwind
{
    match slot {
        Some(x) => Some(x),
        None => None,
    }
}

impl<T: Copy, const N: usize> View for FixedList<T, N> {
    type V = Seq<T>;

    closed spec fn view(&self) -> Seq<T> {
        Seq::new(self.len as nat, |i: int| self.entries@[i]->Some_0)
    }
}

impl<T: Copy, const N: usize> FixedList<T, N> {
    pub fn new() -> (r: Self)
        ensures
            r@ == Seq::<T>::empty(),
    {
        let r = FixedList { entries: [None; N], len: 0 };
        proof {
            assert(r@ =~= Seq::<T>::empty());
        }
        r
    }

    pub fn len(&self) -> (r: usize)
        ensures
            r == self@.len(),
    {
        self.len
    }

    pub fn capacity(&self) -> (r: usize)
        ensures
            r == N,
    {
        N
    }

    pub fn is_empty(&self) -> (r: bool)
        ensures
            r == (self@.len() == 0),
    {
        self.len == 0
    }

    pub fn is_full(&self) -> (r: bool)
        ensures
            r == (self@.len() >= N),
    {
        proof {
            use_type_invariant(self);
        }
        self.len == N
    }

    pub fn clear(&mut self)
        ensures
            final(self)@ == Seq::<T>::empty(),
    {
        proof {
            use_type_invariant(&*self);
        }
        self.len = 0;
        let mut i: usize = 0;
        while i < N
            invariant
                self.len == 0,
                i <= N,
            decreases N - i,
        {
            self.entries[i] = None;
            i += 1;
        }
        proof {
            assert(self@ =~= Seq::<T>::empty());
        }
    }

    pub fn push(&mut self, value: T) -> (r: Result<(), CapacityError>)
        ensures
            old(self)@.len() < N ==> r is Ok && final(self)@ == old(self)@.push(value),
            old(self)@.len() >= N ==> is_capacity_error(r, N) && final(self)@ == old(self)@,
    {
        proof {
            use_type_invariant(&*self);
        }
        if self.len >= N {
            return Err(CapacityError { capacity: N });
        }
        let ghost before = self@;
        let n = self.len;
        self.entries[n] = Some(value);
        self.len = n + 1;
        proof {
            assert(self@ =~= before.push(value));
        }
        Ok(())
    }

    pub fn insert(&mut self, index: usize, value: T) -> (r: Result<(), CapacityError>)
        ensures
            old(self)@.len() < N && index <= old(self)@.len() ==> r is Ok && final(self)@
                == old(self)@.insert(index as int, value),
            !(old(self)@.len() < N && index <= old(self)@.len()) ==> is_capacity_error(r, N) && final(self)@ == old(self)@,
    {
        proof {
            use_type_invariant(&*self);
        }
        if self.len >= N {
            return Err(CapacityError { capacity: N });
        }
        if index > self.len {
            return Err(CapacityError { capacity: N });
        }
        let ghost before = self.entries@;
        let n = self.len;
        let mut i = n;
        while i > index
            invariant
                index <= i <= n,
                n < N,
                self.len == n,
                forall|k: int| 0 <= k < n ==> (#[trigger] before[k]) is Some,
                forall|k: int| 0 <= k < i ==> #[trigger] self.entries@[k] == before[k],
                forall|k: int| i < k <= n ==> #[trigger] self.entries@[k] == before[k - 1],
                i < n ==> self.entries@[i as int] == before[i as int],
            decreases i,
        {
            let moved = self.entries[i - 1];
            self.entries[i] = moved;
            i -= 1;
        }
        self.entries[index] = Some(value);
        self.len = n + 1;
        proof {
            let old_view = Seq::new(n as nat, |k: int| before[k]->Some_0);
            assert(self@ =~= old_view.insert(index as int, value));
        }
        Ok(())
    }

    pub fn remove(&mut self, index: usize) -> (r: Option<T>)
        ensures
            index < old(self)@.len() ==> r == Some(old(self)@[index as int]) && final(self)@
                == old(self)@.remove(index as int),
            index >= old(self)@.len() ==> r is None && final(self)@ == old(self)@,
    {
        proof {
            use_type_invariant(&*self);
        }
        if index >= self.len {
            return None;
        }
        let ghost before = self.entries@;
        let n = self.len;
        let removed = self.entries[index];
        let mut i = index;
        while i + 1 < n
            invariant
                index <= i < n,
                n <= N,
                self.len == n,
                forall|k: int| 0 <= k < n ==> (#[trigger] before[k]) is Some,
                forall|k: int| 0 <= k < index ==> #[trigger] self.entries@[k] == before[k],
                forall|k: int| index <= k < i ==> #[trigger] self.entries@[k] == before[k + 1],
                forall|k: int| i <= k < n ==> #[trigger] self.entries@[k] == before[k],
            decreases n - i,
        {
            let moved = self.entries[i + 1];
            self.entries[i] = moved;
            i += 1;
        }
        self.len = n - 1;
        self.entries[n - 1] = None;
        proof {
            let old_view = Seq::new(n as nat, |k: int| before[k]->Some_0);
            assert(self@ =~= old_view.remove(index as int));
        }
        match removed {
            Some(v) => Some(v),
            None => None,
        }
    }

    pub fn get(&self, index: usize) -> (r: Option<&T>)
        ensures
            index < self@.len() ==> r == Some(&self@[index as int]),
            index >= self@.len() ==> r is None,
    {
        proof {
            use_type_invariant(self);
        }
        if index >= self.len {
            return None;
        }
        self.entries[index].as_ref()
    }

    pub fn get_mut(&mut self, index: usize) -> (r: Option<&mut T>)
        ensures
            index < old(self)@.len() ==> (r matches Some(x) && *x == old(self)@[index as int]
                && final(self)@ == old(self)@.update(index as int, *final(x))),
            index >= old(self)@.len() ==> r is None && final(self)@ == old(self)@,
    {
        proof {
            use_type_invariant(&*self);
        }
        if index >= self.len {
            return None;
        }
        slot_mut(&mut self.entries[index])
    }

    /// Overwrites the entry at `index`, returning whether it existed.
    pub fn set(&mut self, index: usize, value: T) -> (r: bool)
        ensures
            r == (index < old(self)@.len()),
            r ==> final(self)@ == old(self)@.update(index as int, value),
            !r ==> final(self)@ == old(self)@,
    {
        proof {
            use_type_invariant(&*self);
        }
        if index >= self.len {
            return false;
        }
        let ghost before = self@;
        self.entries[index] = Some(value);
        proof {
            assert(self@ =~= before.update(index as int, value));
        }
        true
    }

    /// The entry at `index`.
    pub fn at(&self, index: usize) -> (r: T)
        requires
            index < self@.len(),
        ensures
            r == self@[index as int],
    {
        proof {
            use_type_invariant(self);
        }
        match self.entries[index] {
            Some(v) => v,
            None => {
                proof {
                    assert(false);
                }
                self.entries[0].unwrap()
            }
        }
    }

    /// The filled slots, in order.
    pub fn iter(&self) -> (r: core::slice::Iter<'_, Option<T>>)
        ensures
            exists|s: &[Option<T>]| {
                &&& s@.len() == self@.len()
                &&& forall|i: int| 0 <= i < s@.len() ==> #[trigger] s@[i] == Some(self@[i])
                &&& r == spec_slice_iter(s)
            },
    {
        proof {
            use_type_invariant(self);
        }
        let all = self.entries.as_slice();
        let s = &all[0..self.len];
        s.iter()
    }
}

impl<'a, T: Copy, const N: usize> IntoIterator for &'a FixedList<T, N> {
    type Item = &'a Option<T>;
    type IntoIter = core::slice::Iter<'a, Option<T>>;

    fn into_iter(self) -> (r: core::slice::Iter<'a, Option<T>>)
        ensures
            exists|s: &[Option<T>]| {
                &&& s@.len() == self@.len()
                &&& forall|i: int| 0 <= i < s@.len() ==> #[trigger] s@[i] == Some(self@[i])
                &&& r == spec_slice_iter(s)
            },
    {
        self.iter()
    }
}

#[derive(Debug, Clone, Copy, PartialEq, Eq, Structural)]
pub enum ConsoleKind {
    MiniUart,
}

impl ConsoleKind {
    /// The alignment of the console's register block.
    pub fn min_alignment(&self) -> (r: u64)
        ensures
            r == 4,
    {
        match self {
            ConsoleKind::MiniUart => 4,
        }
    }

    /// The smallest register block the console needs.
    pub fn min_register_size(&self) -> (r: u64)
        ensures
            r == 0x18,
    {
        match self {
            ConsoleKind::MiniUart => 0x18,
        }
    }

    /// The DTB `compatible` string of the console.
    pub fn compatible_str(&self) -> (r: &'static str)
        ensures
            r@ == "brcm,bcm2835-aux-uart"@,
    {
        match self {
            ConsoleKind::MiniUart => "brcm,bcm2835-aux-uart",
        }
    }
}

/// The console that the DTB's `stdout-path` selects: its kind, its
/// registers, and its GIC interrupt ID.
#[derive(Debug, Clone, Copy, PartialEq, Eq, Structural)]
pub struct ConsoleInfo {
    pub kind: ConsoleKind,
    pub registers: PhysRegion,
    pub irq: u32,
}

impl PhysAddr {
    /// The address as `0x` and sixteen hexadecimal digits.
    pub fn to_string(&self) -> (r: String)
        ensures
            r@ == hex_text(self@),
    {
        let mut text = String::new();
        append_hex(&mut text, self.0);
        text
    }
}

impl PhysRegion {
    /// The half-open range `[start, end)` of the region's addresses.
    pub open spec fn display_text(self) -> Seq<char> {
        seq!['['] + hex_text(self.start_spec()) + seq![',', ' '] + hex_text(self.end_spec() as u64)
            + seq![')']
    }

    /// The region as the half-open range `[start, end)` of its addresses.
    pub fn to_string(&self) -> (r: String)
        ensures
            r@ == self.display_text(),
    {
        proof {
            reveal_strlit("[");
            reveal_strlit(", ");
            reveal_strlit(")");
        }
        let mut text = String::new();
        text.append("[");
        append_hex(&mut text, self.start().value());
        text.append(", ");
        append_hex(&mut text, self.end().value());
        text.append(")");
        proof {
            assert(text@ =~= seq!['['] + hex_text(self.start_spec()) + seq![',', ' '] + hex_text(
                self.end_spec() as u64,
            ) + seq![')']);
        }
        text
    }
}

impl RegionError {
    /// What went wrong, in words.
    pub open spec fn message(self) -> Seq<char> {
        match self {
            RegionError::Empty => "physical region is empty"@,
            RegionError::EndBeforeStart => "physical region ends before it starts"@,
            RegionError::AddressOverflow => "physical region end overflows"@,
            RegionError::InvalidAlignment => "region alignment is not a power of two"@,
        }
    }

    /// What went wrong, in words.
    pub fn to_string(&self) -> (r: String)
        ensures
            r@ == self.message(),
    {
        let message = match self {
            RegionError::Empty => "physical region is empty",
            RegionError::EndBeforeStart => "physical region ends before it starts",
            RegionError::AddressOverflow => "physical region end overflows",
            RegionError::InvalidAlignment => "region alignment is not a power of two",
        };
        String::from_str(message)
    }
}

impl CapacityError {
    /// The error in words, with the list's capacity.
    pub fn to_string(&self) -> (r: String)
        ensures
            r@ == "fixed-capacity list is full (capacity "@ + dec_text(self.capacity as nat) + ")"@,
    {
        let mut text = String::from_str("fixed-capacity list is full (capacity ");
        append_decimal(&mut text, self.capacity as u64);
        text.append(")");
        text
    }
}

impl RegionError {
    /// The name of the variant.
    pub open spec fn debug_text(self) -> Seq<char> {
        match self {
            RegionError::Empty => "Empty"@,
            RegionError::EndBeforeStart => "EndBeforeStart"@,
            RegionError::AddressOverflow => "AddressOverflow"@,
            RegionError::InvalidAlignment => "InvalidAlignment"@,
        }
    }

    pub(crate) fn debug_name(&self) -> (r: &'static str)
        ensures
            r@ == self.debug_text(),
    {
        match self {
            RegionError::Empty => "Empty",
            RegionError::EndBeforeStart => "EndBeforeStart",
            RegionError::AddressOverflow => "AddressOverflow",
            RegionError::InvalidAlignment => "InvalidAlignment",
        }
    }
}

} // verus!
