//! A device tree held as plain values: its nodes in document order, each
//! with its name and parent, and the properties of each node, in the order
//! in which a flattened device tree lists them. Lookups follow the
//! device-tree conventions for paths, `status`, `compatible`, `#address-cells`
//! and `#size-cells`.
use vstd::prelude::*;
use crate::text::{append_decimal, dec_text};
use vstd::string::StringExecFns;
use vstd::utf8::valid_utf8;
use crate::fdt::{be_cell, last_slash_before, parent_of, read_be32};

verus! {

/// One property of a node: the node's index, the property's name and its
/// raw value.
pub struct DtProperty {
    pub node: usize,
    pub name: Vec<u8>,
    pub value: Vec<u8>,
}

/// A device tree, built node by node in document order: `begin_node` opens
/// a child of the innermost open node, `property` adds to the innermost
/// open node, `end_node` closes it. The root is node 0.
pub struct DeviceTree {
    names: Vec<Vec<u8>>,
    parents: Vec<usize>,
    properties: Vec<DtProperty>,
    open: Vec<usize>,
}

impl DeviceTree {
    /// How many nodes the tree has.
    pub closed spec fn node_count(&self) -> int {
        self.names@.len() as int
    }

    /// The name of node `i`, with its unit address.
    pub closed spec fn name_of(&self, i: int) -> Seq<u8> {
        self.names@[i]@
    }

    /// The parent of node `i`; the root is its own.
    pub closed spec fn parent_of_node(&self, i: int) -> int {
        self.parents@[i] as int
    }

    /// How many properties the tree has, over all nodes.
    pub closed spec fn prop_count(&self) -> int {
        self.properties@.len() as int
    }

    /// The node of property entry `k`.
    pub closed spec fn prop_node(&self, k: int) -> int {
        self.properties@[k].node as int
    }

    /// The name of property entry `k`.
    pub closed spec fn prop_name(&self, k: int) -> Seq<u8> {
        self.properties@[k].name@
    }

    /// The value of property entry `k`.
    pub closed spec fn prop_value(&self, k: int) -> Seq<u8> {
        self.properties@[k].value@
    }

    /// The open nodes, outermost first.
    pub closed spec fn open_nodes(&self) -> Seq<usize> {
        self.open@
    }

    /// Both trees have the same nodes and properties.
    pub closed spec fn same_contents(&self, other: Self) -> bool {
        &&& self.names@ == other.names@
        &&& self.parents@ == other.parents@
        &&& self.properties@ == other.properties@
    }

    /// The root exists, every other node's parent comes before it, and every
    /// property and open node names an existing node.
    pub closed spec fn wf(&self) -> bool {
        &&& self.names@.len() >= 1
        &&& self.parents@.len() == self.names@.len()
        &&& self.parents@[0] == 0
        &&& forall|i: int| 1 <= i < self.parents@.len() ==> #[trigger] self.parents@[i] < i
        &&& forall|k: int|
            0 <= k < self.properties@.len() ==> #[trigger] self.properties@[k].node
                < self.names@.len()
        &&& forall|k: int| 0 <= k < self.open@.len() ==> #[trigger] self.open@[k] < self.names@.len()
    }

    /// A tree with only its root, which is open and has no name.
    pub fn new() -> (t: Self)
        ensures
            t.wf(),
            t.node_count() == 1,
            t.name_of(0) == Seq::<u8>::empty(),
            t.prop_count() == 0,
            t.open_nodes() == seq![0usize],
    {
        let mut names: Vec<Vec<u8>> = Vec::new();
        names.push(Vec::new());
        let mut parents: Vec<usize> = Vec::new();
        parents.push(0);
        let mut open: Vec<usize> = Vec::new();
        open.push(0);
        DeviceTree { names, parents, properties: Vec::new(), open }
    }

    /// Opens a child named `name` of the innermost open node; `false`, and
    /// nothing changed, when no node is open.
    pub fn begin_node(&mut self, name: &[u8]) -> (ok: bool)
        requires
            old(self).wf(),
        ensures
            final(self).wf(),
            ok == (old(self).open_nodes().len() > 0),
            !ok ==> *final(self) == *old(self),
            ok ==> {
                &&& final(self).node_count() == old(self).node_count() + 1
                &&& forall|i: int|
                    0 <= i < old(self).node_count() ==> final(self).name_of(i) == old(self).name_of(i)
                        && final(self).parent_of_node(i) == old(self).parent_of_node(i)
                &&& final(self).name_of(old(self).node_count()) == name@
                &&& final(self).parent_of_node(old(self).node_count()) == old(self).open_nodes().last()
                &&& final(self).prop_count() == old(self).prop_count()
                &&& forall|k: int|
                    0 <= k < old(self).prop_count() ==> final(self).prop_node(k) == old(self).prop_node(
                        k,
                    ) && final(self).prop_name(k) == old(self).prop_name(k) && final(self).prop_value(
                        k,
                    ) == old(self).prop_value(k)
                &&& final(self).open_nodes() == old(self).open_nodes().push(
                    old(self).node_count() as usize,
                )
            },
    {
        if self.open.len() == 0 {
            return false;
        }
        let parent = self.open[self.open.len() - 1];
        let index = self.names.len();
        self.names.push(vstd::slice::slice_to_vec(name));
        self.parents.push(parent);
        self.open.push(index);
        true
    }

    /// Adds property `name` with `value` to the innermost open node; `false`,
    /// and nothing changed, when no node is open.
    pub fn property(&mut self, name: &[u8], value: &[u8]) -> (ok: bool)
        requires
            old(self).wf(),
        ensures
            final(self).wf(),
            ok == (old(self).open_nodes().len() > 0),
            !ok ==> *final(self) == *old(self),
            ok ==> {
                &&& final(self).node_count() == old(self).node_count()
                &&& forall|i: int|
                    0 <= i < old(self).node_count() ==> final(self).name_of(i) == old(self).name_of(i)
                        && final(self).parent_of_node(i) == old(self).parent_of_node(i)
                &&& final(self).prop_count() == old(self).prop_count() + 1
                &&& forall|k: int|
                    0 <= k < old(self).prop_count() ==> final(self).prop_node(k) == old(self).prop_node(
                        k,
                    ) && final(self).prop_name(k) == old(self).prop_name(k) && final(self).prop_value(
                        k,
                    ) == old(self).prop_value(k)
                &&& final(self).prop_node(old(self).prop_count()) == old(self).open_nodes().last()
                &&& final(self).prop_name(old(self).prop_count()) == name@
                &&& final(self).prop_value(old(self).prop_count()) == value@
                &&& final(self).open_nodes() == old(self).open_nodes()
            },
    {
        if self.open.len() == 0 {
            return false;
        }
        let node = self.open[self.open.len() - 1];
        self.properties.push(DtProperty { node, name: vstd::slice::slice_to_vec(name), value: vstd::slice::slice_to_vec(value) });
        true
    }

    /// Closes the innermost open node; `false`, and nothing changed, when no
    /// node is open.
    pub fn end_node(&mut self) -> (ok: bool)
        requires
            old(self).wf(),
        ensures
            final(self).wf(),
            ok == (old(self).open_nodes().len() > 0),
            !ok ==> *final(self) == *old(self),
            ok ==> final(self).open_nodes() == old(self).open_nodes().drop_last()
                && final(self).same_contents(*old(self)),
    {
        if self.open.len() == 0 {
            return false;
        }
        self.open.pop();
        true
    }

    /// The number of nodes.
    pub fn len(&self) -> (r: usize)
        ensures
            r == self.node_count(),
            self.wf() ==> r >= 1,
    {
        self.names.len()
    }
}

// ----- Byte strings -----

/// Whether `a` and `b` hold the same bytes.
pub fn bytes_eq(a: &[u8], b: &[u8]) -> (r: bool)
    ensures
        r == (a@ == b@),
{
    if a.len() != b.len() {
        return false;
    }
    let mut i: usize = 0;
    while i < a.len()
        invariant
            a@.len() == b@.len(),
            i <= a@.len(),
            forall|j: int| 0 <= j < i ==> a@[j] == b@[j],
        decreases a@.len() - i,
    {
        if a[i] != b[i] {
            return false;
        }
        i += 1;
    }
    proof {
        assert(a@ =~= b@);
    }
    true
}

/// The first index at or after `i` where `s` holds `byte`, or its length.
pub open spec fn index_from(s: Seq<u8>, i: int, byte: u8) -> int
    decreases s.len() - i,
{
    if i >= s.len() {
        s.len() as int
    } else if s[i] == byte {
        i
    } else {
        index_from(s, i + 1, byte)
    }
}

proof fn lemma_index_from(s: Seq<u8>, i: int, byte: u8)
    requires
        0 <= i <= s.len(),
    ensures
        i <= index_from(s, i, byte) <= s.len(),
        index_from(s, i, byte) < s.len() ==> s[index_from(s, i, byte)] == byte,
        forall|j: int| i <= j < index_from(s, i, byte) ==> s[j] != byte,
    decreases s.len() - i,
{
    if i < s.len() && s[i] != byte {
        lemma_index_from(s, i + 1, byte);
    }
}

pub(crate) fn find_byte(s: &[u8], from: usize, byte: u8) -> (r: usize)
    requires
        from <= s@.len(),
    ensures
        r == index_from(s@, from as int, byte),
        from <= r <= s@.len(),
{
    proof {
        lemma_index_from(s@, from as int, byte);
    }
    let mut i = from;
    while i < s.len() && s[i] != byte
        invariant
            from <= i <= s@.len(),
            index_from(s@, from as int, byte) == index_from(s@, i as int, byte),
        decreases s@.len() - i,
    {
        i += 1;
    }
    i
}

/// The first index at or after `i` where `s` holds a byte other than `/`,
/// or its length.
pub open spec fn skip_slashes(s: Seq<u8>, i: int) -> int
    decreases s.len() - i,
{
    if i >= s.len() {
        s.len() as int
    } else if s[i] != 0x2f {
        i
    } else {
        skip_slashes(s, i + 1)
    }
}

proof fn lemma_skip_slashes(s: Seq<u8>, i: int)
    requires
        0 <= i <= s.len(),
    ensures
        i <= skip_slashes(s, i) <= s.len(),
        skip_slashes(s, i) < s.len() ==> s[skip_slashes(s, i)] != 0x2f,
    decreases s.len() - i,
{
    if i < s.len() && s[i] == 0x2f {
        lemma_skip_slashes(s, i + 1);
    }
}

/// The name without its unit address: the bytes before the first `@`.
pub open spec fn without_address(name: Seq<u8>) -> Seq<u8> {
    name.subrange(0, index_from(name, 0, 0x40))
}

/// Whether path component `component` selects a node named `name`: the
/// whole name when the component has a unit address, else the name without
/// its unit address.
pub open spec fn component_selects(name: Seq<u8>, component: Seq<u8>) -> bool {
    if index_from(component, 0, 0x40) < component.len() {
        name == component
    } else {
        without_address(name) == component
    }
}

fn selects(name: &[u8], component: &[u8]) -> (r: bool)
    ensures
        r == component_selects(name@, component@),
{
    let at = find_byte(component, 0, 0x40);
    if at < component.len() {
        bytes_eq(name, component)
    } else {
        let end = find_byte(name, 0, 0x40);
        bytes_eq(&name[0..end], component)
    }
}

// ----- Lookups -----

/// The first child of `parent`, from node `i` on, that `component` selects.
pub open spec fn child_from(t: DeviceTree, parent: int, component: Seq<u8>, i: int) -> Option<int>
    decreases t.node_count() - i,
{
    if i >= t.node_count() || i < 1 {
        None
    } else if t.parent_of_node(i) == parent && component_selects(t.name_of(i), component) {
        Some(i)
    } else {
        child_from(t, parent, component, i + 1)
    }
}

/// The node that `path` reaches from `node`, starting at byte `pos`: each
/// component, between `/`s, selects the first matching child.
pub open spec fn find_from(t: DeviceTree, node: int, path: Seq<u8>, pos: int) -> Option<int>
    decreases path.len() - pos,
{
    if pos < 0 || pos > path.len() {
        None
    } else {
        let start = skip_slashes(path, pos);
        if start >= path.len() || start < pos {
            Some(node)
        } else {
            let end = index_from(path, start, 0x2f);
            if end <= start || end > path.len() {
                None
            } else {
                match child_from(t, node, path.subrange(start, end), 1) {
                    None => None,
                    Some(child) => find_from(t, child, path, end),
                }
            }
        }
    }
}

/// The node at absolute `path`, as the device-tree lookup finds it; none for
/// a path that does not start with `/`.
pub open spec fn find_node_spec(t: DeviceTree, path: Seq<u8>) -> Option<int> {
    if path.len() == 0 || path[0] != 0x2f {
        None
    } else {
        find_from(t, 0, path, 0)
    }
}

/// The value of the first property of node `i` named `name`, from entry `k`
/// on.
pub open spec fn prop_from(t: DeviceTree, i: int, name: Seq<u8>, k: int) -> Option<Seq<u8>>
    decreases t.prop_count() - k,
{
    if k >= t.prop_count() || k < 0 {
        None
    } else if t.prop_node(k) == i && t.prop_name(k) == name {
        Some(t.prop_value(k))
    } else {
        prop_from(t, i, name, k + 1)
    }
}

/// The value of node `i`'s property `name`.
pub open spec fn prop_of(t: DeviceTree, i: int, name: Seq<u8>) -> Option<Seq<u8>> {
    prop_from(t, i, name, 0)
}

/// A node index as an integer.
pub open spec fn node_opt(r: Option<usize>) -> Option<int> {
    match r {
        None => None,
        Some(c) => Some(c as int),
    }
}

pub open spec fn bytes_of(v: Option<&[u8]>) -> Option<Seq<u8>> {
    match v {
        None => None,
        Some(s) => Some(s@),
    }
}

impl DeviceTree {
    fn child(&self, parent: usize, component: &[u8]) -> (r: Option<usize>)
        requires
            self.wf(),
        ensures
            node_opt(r) == child_from(*self, parent as int, component@, 1),
            r matches Some(c) ==> 1 <= c < self.node_count(),
    {
        let mut i: usize = 1;
        while i < self.names.len()
            invariant
                self.wf(),
                1 <= i <= self.names@.len(),
                child_from(*self, parent as int, component@, 1) == child_from(
                    *self,
                    parent as int,
                    component@,
                    i as int,
                ),
            decreases self.names@.len() - i,
        {
            if self.parents[i] == parent && selects(self.names[i].as_slice(), component) {
                return Some(i);
            }
            i += 1;
        }
        None
    }

    /// The node at absolute `path`: each component selects the first child
    /// whose name, or name without unit address when the component has
    /// none, equals it.
    pub fn find_node(&self, path: &[u8]) -> (r: Option<usize>)
        requires
            self.wf(),
        ensures
            node_opt(r) == find_node_spec(*self, path@),
            r matches Some(c) ==> c < self.node_count(),
    {
        if path.len() == 0 || path[0] != 0x2f {
            return None;
        }
        let mut node: usize = 0;
        let mut pos: usize = 0;
        while pos < path.len()
            invariant
                self.wf(),
                pos <= path@.len(),
                node < self.node_count(),
                find_node_spec(*self, path@) == find_from(*self, node as int, path@, pos as int),
            decreases path@.len() - pos,
        {
            proof {
                lemma_skip_slashes(path@, pos as int);
            }
            let mut start = pos;
            while start < path.len() && path[start] == 0x2f
                invariant
                    pos <= start <= path@.len(),
                    skip_slashes(path@, pos as int) == skip_slashes(path@, start as int),
                decreases path@.len() - start,
            {
                start += 1;
            }
            if start >= path.len() {
                return Some(node);
            }
            let end = find_byte(path, start, 0x2f);
            proof {
                lemma_index_from(path@, start as int, 0x2f);
            }
            let component = &path[start..end];
            proof {
                assert(component@ =~= path@.subrange(start as int, end as int));
            }
            match self.child(node, component) {
                None => {
                    return None;
                },
                Some(child) => {
                    node = child;
                    pos = end;
                },
            }
        }
        proof {
            lemma_skip_slashes(path@, pos as int);
        }
        Some(node)
    }

    /// The value of node `node`'s first property named `name`.
    pub fn property_value(&self, node: usize, name: &[u8]) -> (r: Option<&[u8]>)
        requires
            self.wf(),
        ensures
            bytes_of(r) == prop_of(*self, node as int, name@),
    {
        let mut k: usize = 0;
        while k < self.properties.len()
            invariant
                self.wf(),
                k <= self.properties@.len(),
                prop_of(*self, node as int, name@) == prop_from(*self, node as int, name@, k as int),
            decreases self.properties@.len() - k,
        {
            if self.properties[k].node == node && bytes_eq(self.properties[k].name.as_slice(), name) {
                return Some(self.properties[k].value.as_slice());
            }
            k += 1;
        }
        None
    }

    /// The parent of node `node`.
    pub fn parent(&self, node: usize) -> (r: usize)
        requires
            self.wf(),
            node < self.node_count(),
        ensures
            r == self.parent_of_node(node as int),
            r < self.node_count(),
            node > 0 ==> r < node,
    {
        self.parents[node]
    }

    /// The name of node `node`.
    pub fn name(&self, node: usize) -> (r: &[u8])
        requires
            self.wf(),
            node < self.node_count(),
        ensures
            r@ == self.name_of(node as int),
    {
        self.names[node].as_slice()
    }
}

// ----- Property values -----

/// The integer held by the `n` big-endian 32-bit cells of `s` from byte
/// `start` on.
pub open spec fn cells_value(s: Seq<u8>, start: int, n: nat) -> int
    decreases n,
{
    if n == 0 {
        0
    } else {
        cells_value(s, start, (n - 1) as nat) * 0x1_0000_0000 + be_cell(s, start + 4 * (n - 1))
    }
}

proof fn lemma_be_cell_bound(s: Seq<u8>, i: int)
    requires
        0 <= i,
        i + 4 <= s.len(),
    ensures
        0 <= be_cell(s, i) < 0x1_0000_0000,
{
    let a = s[i] as int;
    let b = s[i + 1] as int;
    let c = s[i + 2] as int;
    let d = s[i + 3] as int;
    assert(0 <= a * 0x100_0000 + b * 0x1_0000 + c * 0x100 + d < 0x1_0000_0000) by (nonlinear_arith)
        requires
            0 <= a < 256,
            0 <= b < 256,
            0 <= c < 256,
            0 <= d < 256,
    ;
}

/// Reads the `n` (at most two) cells of `s` from byte `start` on.
fn read_cells(s: &[u8], start: usize, n: u64) -> (r: u64)
    requires
        n <= 2,
        start + 4 * n <= s@.len(),
    ensures
        r == cells_value(s@, start as int, n as nat),
{
    if n == 0 {
        0
    } else if n == 1 {
        proof {
            lemma_be_cell_bound(s@, start as int);
            reveal_with_fuel(cells_value, 2);
        }
        read_be32(s, start) as u64
    } else {
        let length = s.len();
        let high = read_be32(s, start) as u64;
        let low = read_be32(s, start + 4) as u64;
        proof {
            lemma_be_cell_bound(s@, start as int);
            lemma_be_cell_bound(s@, start + 4);
            reveal_with_fuel(cells_value, 3);
            assert(high * 0x1_0000_0000 + low <= u64::MAX) by (nonlinear_arith)
                requires
                    high < 0x1_0000_0000,
                    low < 0x1_0000_0000,
            ;
        }
        high * 0x1_0000_0000 + low
    }
}

/// One entry of a property that is an array of fields of `w0`, `w1` and
/// `w2` cells each.
#[derive(Debug, Clone, Copy, PartialEq, Eq, Structural)]
pub enum ArrayEntry {
    /// The value is not a whole number of entries (or an entry has no cells).
    BadLayout,
    /// The value has fewer entries.
    Missing,
    /// A field has more cells than 64 bits hold.
    TooWide,
    /// The entry's three fields.
    Found(u64, u64, u64),
}

/// Entry `e` of array value `v` whose entries have fields of `w0`, `w1`
/// and `w2` cells.
pub open spec fn array_entry(v: Seq<u8>, w0: int, w1: int, w2: int, e: int) -> ArrayEntry {
    let chunk = w0 + w1 + w2;
    if chunk == 0 || (v.len() as int) % (4 * chunk) != 0 {
        ArrayEntry::BadLayout
    } else if (e + 1) * (4 * chunk) > v.len() {
        ArrayEntry::Missing
    } else if w0 > 2 || w1 > 2 || w2 > 2 {
        ArrayEntry::TooWide
    } else {
        let base = 4 * (e * chunk);
        ArrayEntry::Found(
            cells_value(v, base, w0 as nat) as u64,
            cells_value(v, base + 4 * w0, w1 as nat) as u64,
            cells_value(v, base + 4 * (w0 + w1), w2 as nat) as u64,
        )
    }
}

/// Reads entry `e` of the array `v` with fields of `w0`, `w1` and `w2`
/// cells.
pub fn read_array_entry(v: &[u8], w0: u32, w1: u32, w2: u32, e: usize) -> (r: ArrayEntry)
    ensures
        r == array_entry(v@, w0 as int, w1 as int, w2 as int, e as int),
{
    let chunk: u64 = w0 as u64 + w1 as u64 + w2 as u64;
    let len = v.len() as u64;
    if chunk == 0 || len % (4 * chunk) != 0 {
        return ArrayEntry::BadLayout;
    }
    let stride: u64 = 4 * chunk;
    // Entry `e` exists when `e` is below the number of whole entries.
    let count: u64 = len / stride;
    proof {
        assert(len == stride * (len / stride)) by {
            vstd::arithmetic::div_mod::lemma_fundamental_div_mod(len as int, stride as int);
        }
    }
    if e as u64 >= count {
        proof {
            assert((e + 1) * stride > len) by (nonlinear_arith)
                requires
                    e >= count,
                    len == stride * count,
                    stride > 0,
            ;
        }
        return ArrayEntry::Missing;
    }
    proof {
        assert((e + 1) * stride <= len) by (nonlinear_arith)
            requires
                e < count,
                len == stride * count,
                stride > 0,
        ;
    }
    if w0 > 2 || w1 > 2 || w2 > 2 {
        return ArrayEntry::TooWide;
    }
    proof {
        assert(4 * (e * chunk) + 4 * chunk <= len) by (nonlinear_arith)
            requires
                (e + 1) * (4 * chunk) <= len,
        ;
    }
    let base: usize = (4 * (e as u64 * chunk)) as usize;
    let a = read_cells(v, base, w0 as u64);
    let b = read_cells(v, base + 4 * (w0 as usize), w1 as u64);
    let c = read_cells(v, base + 4 * (w0 as usize + w1 as usize), w2 as u64);
    ArrayEntry::Found(a, b, c)
}

/// Whether `bytes` is well-formed UTF-8, by `core::str::from_utf8`: the
/// standard library accepts exactly the well-formed UTF-8 byte strings.
#[verifier::external_body]
pub(crate) fn is_utf8(bytes: &[u8]) -> (r: bool)
    ensures
        r == valid_utf8(bytes@),
{
    core::str::from_utf8(bytes).is_ok()
}

/// The text of a NUL-terminated string value: `v` without its final NUL,
/// when that is its only NUL and the rest is UTF-8.
pub open spec fn cstr_of(v: Seq<u8>) -> Option<Seq<u8>> {
    if v.len() >= 1 && index_from(v, 0, 0) == v.len() - 1 && valid_utf8(v.drop_last()) {
        Some(v.drop_last())
    } else {
        None
    }
}

/// The text of the NUL-terminated string `v`, as [`cstr_of`] defines it.
pub fn cstr(v: &[u8]) -> (r: Option<&[u8]>)
    ensures
        bytes_of(r) == cstr_of(v@),
{
    if v.len() == 0 {
        return None;
    }
    let nul = find_byte(v, 0, 0);
    if nul != v.len() - 1 {
        return None;
    }
    let text = &v[0..nul];
    proof {
        assert(text@ =~= v@.drop_last());
    }
    if is_utf8(text) {
        Some(text)
    } else {
        None
    }
}

/// Whether the string list `v` (NUL-terminated strings, one after another)
/// holds `s`, reading strings until one is unterminated or not UTF-8.
pub open spec fn str_list_contains(v: Seq<u8>, s: Seq<u8>) -> bool
    decreases v.len(),
{
    if v.len() == 0 {
        false
    } else {
        let k = index_from(v, 0, 0);
        if k >= v.len() || k < 0 {
            false
        } else if !valid_utf8(v.subrange(0, k)) {
            false
        } else if v.subrange(0, k) == s {
            true
        } else {
            str_list_contains(v.subrange(k + 1, v.len() as int), s)
        }
    }
}

/// Whether the string list `v` holds `s`, as [`str_list_contains`] reads it.
pub fn list_contains(v: &[u8], s: &[u8]) -> (r: bool)
    ensures
        r == str_list_contains(v@, s@),
{
    let mut pos: usize = 0;
    proof {
        assert(v@.subrange(0, v@.len() as int) =~= v@);
    }
    while pos < v.len()
        invariant
            pos <= v@.len(),
            str_list_contains(v@, s@) == str_list_contains(v@.subrange(pos as int, v@.len() as int), s@),
        decreases v@.len() - pos,
    {
        let rest = &v[pos..v.len()];
        let ghost r = rest@;
        proof {
            assert(r =~= v@.subrange(pos as int, v@.len() as int));
            lemma_index_from(r, 0, 0);
        }
        let k = find_byte(rest, 0, 0);
        if k >= rest.len() {
            return false;
        }
        let item = &rest[0..k];
        proof {
            assert(item@ =~= r.subrange(0, k as int));
        }
        if !is_utf8(item) {
            return false;
        }
        if bytes_eq(item, s) {
            return true;
        }
        proof {
            assert(r.subrange(k + 1, r.len() as int) =~= v@.subrange(pos + k + 1, v@.len() as int));
        }
        pos = pos + k + 1;
    }
    proof {
        assert(v@.subrange(pos as int, v@.len() as int) =~= Seq::<u8>::empty());
    }
    false
}

// ----- Standard properties -----

/// The bytes of `okay` and its NUL.
pub open spec fn okay_value() -> Seq<u8> {
    seq![0x6fu8, 0x6bu8, 0x61u8, 0x79u8, 0x00u8]
}

/// Node `i` is operational: it has no `status`, or its status is `okay`.
pub open spec fn status_okay(t: DeviceTree, i: int) -> bool {
    match prop_of(t, i, name_status()) {
        None => true,
        Some(v) => v == okay_value(),
    }
}

/// A cell-count property of node `i`: its value when it is one cell, else
/// `default`.
pub open spec fn cell_count(t: DeviceTree, i: int, name: Seq<u8>, default: int) -> int {
    match prop_of(t, i, name) {
        Some(v) => if v.len() == 4 {
            be_cell(v, 0)
        } else {
            default
        },
        None => default,
    }
}

// ----- Names -----

/// The bytes of `reg`.
pub open spec fn name_reg() -> Seq<u8> {
    seq![0x72u8, 0x65u8, 0x67u8]
}

/// The bytes of `ranges`.
pub open spec fn name_ranges() -> Seq<u8> {
    seq![0x72u8, 0x61u8, 0x6eu8, 0x67u8, 0x65u8, 0x73u8]
}

/// The bytes of `#address-cells`.
pub open spec fn name_address_cells() -> Seq<u8> {
    seq![0x23u8, 0x61u8, 0x64u8, 0x64u8, 0x72u8, 0x65u8, 0x73u8, 0x73u8, 0x2du8, 0x63u8, 0x65u8, 0x6cu8, 0x6cu8, 0x73u8]
}

/// The bytes of `#size-cells`.
pub open spec fn name_size_cells() -> Seq<u8> {
    seq![0x23u8, 0x73u8, 0x69u8, 0x7au8, 0x65u8, 0x2du8, 0x63u8, 0x65u8, 0x6cu8, 0x6cu8, 0x73u8]
}

/// The bytes of `status`.
pub open spec fn name_status() -> Seq<u8> {
    seq![0x73u8, 0x74u8, 0x61u8, 0x74u8, 0x75u8, 0x73u8]
}

/// The bytes of `compatible`.
pub open spec fn name_compatible() -> Seq<u8> {
    seq![0x63u8, 0x6fu8, 0x6du8, 0x70u8, 0x61u8, 0x74u8, 0x69u8, 0x62u8, 0x6cu8, 0x65u8]
}

/// The bytes of `/chosen`.
pub open spec fn name_chosen() -> Seq<u8> {
    seq![0x2fu8, 0x63u8, 0x68u8, 0x6fu8, 0x73u8, 0x65u8, 0x6eu8]
}

/// The bytes of `stdout-path`.
pub open spec fn name_stdout_path() -> Seq<u8> {
    seq![0x73u8, 0x74u8, 0x64u8, 0x6fu8, 0x75u8, 0x74u8, 0x2du8, 0x70u8, 0x61u8, 0x74u8, 0x68u8]
}

/// The bytes of `/aliases`.
pub open spec fn name_aliases() -> Seq<u8> {
    seq![0x2fu8, 0x61u8, 0x6cu8, 0x69u8, 0x61u8, 0x73u8, 0x65u8, 0x73u8]
}

/// The bytes of `interrupts`.
pub open spec fn name_interrupts() -> Seq<u8> {
    seq![0x69u8, 0x6eu8, 0x74u8, 0x65u8, 0x72u8, 0x72u8, 0x75u8, 0x70u8, 0x74u8, 0x73u8]
}

/// The bytes of `brcm,bcm2835-aux-uart`.
pub open spec fn name_mini_uart() -> Seq<u8> {
    seq![0x62u8, 0x72u8, 0x63u8, 0x6du8, 0x2cu8, 0x62u8, 0x63u8, 0x6du8, 0x32u8, 0x38u8, 0x33u8, 0x35u8, 0x2du8, 0x61u8, 0x75u8, 0x78u8, 0x2du8, 0x75u8, 0x61u8, 0x72u8, 0x74u8]
}

/// The bytes of `arm,gic-400`.
pub open spec fn name_gic_400() -> Seq<u8> {
    seq![0x61u8, 0x72u8, 0x6du8, 0x2cu8, 0x67u8, 0x69u8, 0x63u8, 0x2du8, 0x34u8, 0x30u8, 0x30u8]
}

/// The bytes of `arm,cortex-a15-gic`.
pub open spec fn name_gic_a15() -> Seq<u8> {
    seq![0x61u8, 0x72u8, 0x6du8, 0x2cu8, 0x63u8, 0x6fu8, 0x72u8, 0x74u8, 0x65u8, 0x78u8, 0x2du8, 0x61u8, 0x31u8, 0x35u8, 0x2du8, 0x67u8, 0x69u8, 0x63u8]
}

// ----- Standard properties of nodes -----

/// `#address-cells` of node `i`, two when it has none.
pub open spec fn address_cells(t: DeviceTree, i: int) -> int {
    cell_count(t, i, name_address_cells(), 2)
}

/// `#size-cells` of node `i`, one when it has none.
pub open spec fn size_cells(t: DeviceTree, i: int) -> int {
    cell_count(t, i, name_size_cells(), 1)
}

/// The address cells of the bus that node `i` sits on.
pub open spec fn bus_address_cells(t: DeviceTree, i: int) -> int {
    if i == 0 {
        2
    } else {
        address_cells(t, t.parent_of_node(i))
    }
}

/// The size cells of the bus that node `i` sits on.
pub open spec fn bus_size_cells(t: DeviceTree, i: int) -> int {
    if i == 0 {
        1
    } else {
        size_cells(t, t.parent_of_node(i))
    }
}

/// Entry `e` of node `i`'s `reg` (address, size), laid out in the bus's
/// cells; none when the node has no `reg`.
pub open spec fn reg_entry(t: DeviceTree, i: int, e: int) -> Option<ArrayEntry> {
    match prop_of(t, i, name_reg()) {
        None => None,
        Some(v) => Some(array_entry(v, bus_address_cells(t, i), bus_size_cells(t, i), 0, e)),
    }
}

/// Node `i`'s `compatible` list holds `s`.
pub open spec fn compatible_with(t: DeviceTree, i: int, s: Seq<u8>) -> bool {
    match prop_of(t, i, name_compatible()) {
        None => false,
        Some(v) => str_list_contains(v, s),
    }
}

impl DeviceTree {
    fn cell_count_of(&self, node: usize, name: &[u8], default: u32) -> (r: u32)
        requires
            self.wf(),
        ensures
            r == cell_count(*self, node as int, name@, default as int),
    {
        match self.property_value(node, name) {
            Some(v) => if v.len() == 4 {
                proof {
                    lemma_be_cell_bound(v@, 0);
                }
                read_be32(v, 0)
            } else {
                default
            },
            None => default,
        }
    }

    /// `#address-cells` of `node`, two when it has none.
    pub fn address_cells(&self, node: usize) -> (r: u32)
        requires
            self.wf(),
        ensures
            r == address_cells(*self, node as int),
    {
        let name: [u8; 14] = [0x23u8, 0x61u8, 0x64u8, 0x64u8, 0x72u8, 0x65u8, 0x73u8, 0x73u8, 0x2du8, 0x63u8, 0x65u8, 0x6cu8, 0x6cu8, 0x73u8];
        proof {
            assert(name@ =~= name_address_cells());
        }
        self.cell_count_of(node, &name, 2)
    }

    /// `#size-cells` of `node`, one when it has none.
    pub fn size_cells(&self, node: usize) -> (r: u32)
        requires
            self.wf(),
        ensures
            r == size_cells(*self, node as int),
    {
        let name: [u8; 11] = [0x23u8, 0x73u8, 0x69u8, 0x7au8, 0x65u8, 0x2du8, 0x63u8, 0x65u8, 0x6cu8, 0x6cu8, 0x73u8];
        proof {
            assert(name@ =~= name_size_cells());
        }
        self.cell_count_of(node, &name, 1)
    }

    /// The address and size cells of the bus that `node` sits on.
    pub fn bus_cells(&self, node: usize) -> (r: (u32, u32))
        requires
            self.wf(),
            node < self.node_count(),
        ensures
            r.0 == bus_address_cells(*self, node as int),
            r.1 == bus_size_cells(*self, node as int),
    {
        if node == 0 {
            (2, 1)
        } else {
            let bus = self.parents[node];
            (self.address_cells(bus), self.size_cells(bus))
        }
    }

    /// Entry `e` of `node`'s `reg`; none when it has no `reg`.
    pub fn reg_entry(&self, node: usize, e: usize) -> (r: Option<ArrayEntry>)
        requires
            self.wf(),
            node < self.node_count(),
        ensures
            r == reg_entry(*self, node as int, e as int),
    {
        let name: [u8; 3] = [0x72u8, 0x65u8, 0x67u8];
        proof {
            assert(name@ =~= name_reg());
        }
        let (address, size) = self.bus_cells(node);
        match self.property_value(node, &name) {
            None => None,
            Some(v) => Some(read_array_entry(v, address, size, 0, e)),
        }
    }

    /// Whether `node` is operational: no `status`, or `okay`.
    pub fn status_okay(&self, node: usize) -> (r: bool)
        requires
            self.wf(),
        ensures
            r == status_okay(*self, node as int),
    {
        let name: [u8; 6] = [0x73u8, 0x74u8, 0x61u8, 0x74u8, 0x75u8, 0x73u8];
        let okay: [u8; 5] = [0x6fu8, 0x6bu8, 0x61u8, 0x79u8, 0x00u8];
        proof {
            assert(name@ =~= name_status());
            assert(okay@ =~= okay_value());
        }
        match self.property_value(node, &name) {
            None => true,
            Some(v) => bytes_eq(v, &okay),
        }
    }

    /// Whether `node`'s `compatible` list holds `s`.
    pub fn is_compatible(&self, node: usize, s: &[u8]) -> (r: bool)
        requires
            self.wf(),
        ensures
            r == compatible_with(*self, node as int, s@),
    {
        let name: [u8; 10] = [0x63u8, 0x6fu8, 0x6du8, 0x70u8, 0x61u8, 0x74u8, 0x69u8, 0x62u8, 0x6cu8, 0x65u8];
        proof {
            assert(name@ =~= name_compatible());
        }
        match self.property_value(node, &name) {
            None => false,
            Some(v) => list_contains(v, s),
        }
    }
}

// ----- Paths -----

/// The length of the parent path of node path `p`, which is a prefix of it.
pub fn parent_len(p: &[u8]) -> (r: Option<usize>)
    ensures
        match parent_of(p@) {
            None => r is None,
            Some(q) => r matches Some(n) && n < p@.len() && q == p@.subrange(0, n as int),
        },
{
    let n = p.len();
    if n == 0 || p[0] != 0x2f || (n == 1 && p[0] == 0x2f) {
        proof {
            if n == 1 && p@[0] == 0x2f {
                assert(p@ =~= seq![0x2fu8]);
            }
        }
        return None;
    }
    proof {
        assert(!(p@ =~= seq![0x2fu8]));
    }
    let mut k: usize = n;
    while k > 0 && p[k - 1] != 0x2f
        invariant
            1 <= k <= n,
            n == p@.len(),
            p@[0] == 0x2f,
            last_slash_before(p@, n as int) == last_slash_before(p@, k as int),
        decreases k,
    {
        k -= 1;
    }
    let separator = k - 1;
    if separator == 0 {
        proof {
            assert(p@.subrange(0, 1) =~= seq![0x2fu8]);
        }
        Some(1)
    } else {
        Some(separator)
    }
}

/// The bytes of the root path.
pub open spec fn root_path() -> Seq<u8> {
    seq![0x2fu8]
}

// ----- Address translation -----

/// Why an address could not be carried to the CPU's address space.
#[derive(Debug, Clone, Copy, PartialEq, Eq, Structural)]
pub enum TranslateError {
    MissingParent,
    MissingRanges,
    AddressNotMapped,
    AddressOverflow,
}

pub proof fn lemma_found_entry_in_bounds(v: Seq<u8>, w0: int, w1: int, w2: int, e: int)
    requires
        0 <= e,
        0 <= w0,
        0 <= w1,
        0 <= w2,
        array_entry(v, w0, w1, w2, e) is Found,
    ensures
        e < v.len(),
{
    let chunk = w0 + w1 + w2;
    assert(e + 1 <= (e + 1) * (4 * chunk)) by (nonlinear_arith)
        requires
            chunk >= 1,
            e >= 0,
    ;
}

/// The first of the ranges of `v`, from entry `e` on, that covers
/// `address`, applied to it.
pub open spec fn first_range(v: Seq<u8>, w0: int, w1: int, w2: int, address: u64, e: int) -> Result<
    u64,
    TranslateError,
>
    decreases v.len() - e,
{
    if e < 0 || w0 < 0 || w1 < 0 || w2 < 0 {
        Err(TranslateError::AddressNotMapped)
    } else {
        match array_entry(v, w0, w1, w2, e) {
            ArrayEntry::Found(child, parent, length) => if child <= address && address - child
                < length {
                if parent + (address - child) > u64::MAX {
                    Err(TranslateError::AddressOverflow)
                } else {
                    Ok((parent + (address - child)) as u64)
                }
            } else {
                proof {
                    lemma_found_entry_in_bounds(v, w0, w1, w2, e);
                }
                first_range(v, w0, w1, w2, address, e + 1)
            },
            ArrayEntry::TooWide => Err(TranslateError::AddressOverflow),
            _ => Err(TranslateError::AddressNotMapped),
        }
    }
}

/// `address` carried through the `ranges` of bus node `b`: unchanged when
/// the bus has no ranges entries, else by the first range that covers it.
pub open spec fn through_bus(t: DeviceTree, b: int, address: u64) -> Result<u64, TranslateError> {
    match prop_of(t, b, name_ranges()) {
        None => Err(TranslateError::MissingRanges),
        Some(v) => {
            let w0 = address_cells(t, b);
            let w1 = bus_address_cells(t, b);
            let w2 = size_cells(t, b);
            match array_entry(v, w0, w1, w2, 0) {
                ArrayEntry::BadLayout => Err(TranslateError::MissingRanges),
                ArrayEntry::Missing => Ok(address),
                _ => first_range(v, w0, w1, w2, address, 0),
            }
        }
    }
}

/// `address` carried from the bus at `bus_path` up to the root.
pub open spec fn translate_from(t: DeviceTree, bus_path: Seq<u8>, address: u64) -> Result<
    u64,
    TranslateError,
>
    decreases bus_path.len(),
{
    if bus_path == root_path() {
        Ok(address)
    } else {
        match find_node_spec(t, bus_path) {
            None => Err(TranslateError::MissingParent),
            Some(b) => match through_bus(t, b, address) {
                Err(e) => Err(e),
                Ok(a) => match parent_of(bus_path) {
                    None => Err(TranslateError::MissingParent),
                    Some(up) => if up.len() < bus_path.len() {
                        translate_from(t, up, a)
                    } else {
                        Err(TranslateError::MissingParent)
                    },
                },
            },
        }
    }
}

/// The CPU physical address of bus address `address` of the device at
/// `device_path`, carried through every ancestor bus's `ranges`.
pub open spec fn translate_device(t: DeviceTree, device_path: Seq<u8>, address: u64) -> Result<
    u64,
    TranslateError,
> {
    match parent_of(device_path) {
        None => Err(TranslateError::MissingParent),
        Some(bus) => translate_from(t, bus, address),
    }
}

impl DeviceTree {
    fn through_bus(&self, bus: usize, address: u64) -> (r: Result<u64, TranslateError>)
        requires
            self.wf(),
            bus < self.node_count(),
        ensures
            r == through_bus(*self, bus as int, address),
    {
        let name: [u8; 6] = [0x72u8, 0x61u8, 0x6eu8, 0x67u8, 0x65u8, 0x73u8];
        proof {
            assert(name@ =~= name_ranges());
        }
        let v = match self.property_value(bus, &name) {
            None => return Err(TranslateError::MissingRanges),
            Some(v) => v,
        };
        let w0 = self.address_cells(bus);
        let (w1, _) = self.bus_cells(bus);
        let w2 = self.size_cells(bus);
        match read_array_entry(v, w0, w1, w2, 0) {
            ArrayEntry::BadLayout => return Err(TranslateError::MissingRanges),
            ArrayEntry::Missing => return Ok(address),
            _ => {},
        }
        let mut e: usize = 0;
        let vlen = v.len();
        loop
            invariant
                vlen == v@.len(),
                e <= vlen,
                through_bus(*self, bus as int, address) == first_range(
                    v@,
                    w0 as int,
                    w1 as int,
                    w2 as int,
                    address,
                    e as int,
                ),
            decreases v@.len() - e,
        {
            match read_array_entry(v, w0, w1, w2, e) {
                ArrayEntry::Found(child, parent, length) => {
                    if child <= address && address - child < length {
                        return match parent.checked_add(address - child) {
                            None => Err(TranslateError::AddressOverflow),
                            Some(a) => Ok(a),
                        };
                    }
                    proof {
                        lemma_found_entry_in_bounds(v@, w0 as int, w1 as int, w2 as int, e as int);
                    }
                    e += 1;
                },
                ArrayEntry::TooWide => return Err(TranslateError::AddressOverflow),
                _ => return Err(TranslateError::AddressNotMapped),
            }
        }
    }

    /// Carries `address` from the bus at `bus_path` up to the root.
    fn translate_from(&self, bus_path: &[u8], address: u64) -> (r: Result<u64, TranslateError>)
        requires
            self.wf(),
        ensures
            r == translate_from(*self, bus_path@, address),
    {
        let root: [u8; 1] = [0x2fu8];
        proof {
            assert(root@ =~= root_path());
        }
        let mut path = bus_path;
        let mut current = address;
        loop
            invariant
                self.wf(),
                translate_from(*self, bus_path@, address) == translate_from(*self, path@, current),
                root@ == root_path(),
            decreases path@.len(),
        {
            if bytes_eq(path, &root) {
                return Ok(current);
            }
            let bus = match self.find_node(path) {
                None => return Err(TranslateError::MissingParent),
                Some(b) => b,
            };
            current = match self.through_bus(bus, current) {
                Err(e) => return Err(e),
                Ok(a) => a,
            };
            let n = match parent_len(path) {
                None => return Err(TranslateError::MissingParent),
                Some(n) => n,
            };
            let up = &path[0..n];
            proof {
                assert(up@ =~= path@.subrange(0, n as int));
            }
            path = up;
        }
    }

    /// The CPU physical address of bus address `address` of the device at
    /// `device_path`.
    pub fn translate_device(&self, device_path: &[u8], address: u64) -> (r: Result<
        u64,
        TranslateError,
    >)
        requires
            self.wf(),
        ensures
            r == translate_device(*self, device_path@, address),
    {
        match parent_len(device_path) {
            None => Err(TranslateError::MissingParent),
            Some(n) => {
                let bus = &device_path[0..n];
                proof {
                    assert(bus@ =~= device_path@.subrange(0, n as int));
                }
                self.translate_from(bus, address)
            },
        }
    }
}

// ----- Node paths -----

/// The path of node `i`: `/` for the root, else its parent's path, a `/`
/// unless the parent is the root, and its name.
pub open spec fn path_of(t: DeviceTree, i: int) -> Seq<u8>
    decreases i,
{
    if i <= 0 || i >= t.node_count() {
        root_path()
    } else {
        let p = t.parent_of_node(i);
        if p == 0 {
            root_path() + t.name_of(i)
        } else if 0 < p < i {
            path_of(t, p) + root_path() + t.name_of(i)
        } else {
            root_path()
        }
    }
}

/// The smaller of the length of node `i`'s path and 257.
pub open spec fn capped_path_len(t: DeviceTree, i: int) -> int {
    if path_of(t, i).len() > 257 {
        257
    } else {
        path_of(t, i).len() as int
    }
}

impl DeviceTree {
    /// Appends the path of `node` to `out`.
    fn append_path(&self, node: usize, out: &mut Vec<u8>)
        requires
            self.wf(),
            node < self.node_count(),
        ensures
            final(out)@ == old(out)@ + path_of(*self, node as int),
        decreases node,
    {
        if node == 0 {
            out.push(0x2f);
            proof {
                assert(final(out)@ =~= old(out)@ + path_of(*self, node as int));
            }
            return;
        }
        let p = self.parents[node];
        if p != 0 {
            self.append_path(p, out);
        }
        out.push(0x2f);
        let name = self.names[node].as_slice();
        let mut k: usize = 0;
        let ghost mid = out@;
        while k < name.len()
            invariant
                k <= name@.len(),
                out@ == mid + name@.subrange(0, k as int),
            decreases name@.len() - k,
        {
            out.push(name[k]);
            proof {
                assert(out@ =~= mid + name@.subrange(0, k + 1));
            }
            k += 1;
        }
        proof {
            assert(name@.subrange(0, k as int) =~= name@);
            assert(final(out)@ =~= old(out)@ + path_of(*self, node as int));
        }
    }

    /// The path of `node`.
    pub fn path(&self, node: usize) -> (r: Vec<u8>)
        requires
            self.wf(),
            node < self.node_count(),
        ensures
            r@ == path_of(*self, node as int),
    {
        let mut out: Vec<u8> = Vec::new();
        self.append_path(node, &mut out);
        proof {
            assert(out@ =~= path_of(*self, node as int));
        }
        out
    }
}

// ----- Reading a flattened device tree -----

/// Why a DTB blob was refused.
#[derive(Debug, Clone, Copy, PartialEq, Eq, Structural)]
pub enum FdtParseError {
    /// The blob is shorter than its header, or its `totalsize` is not its
    /// length, or a value runs past its end.
    InvalidLength,
    InvalidMagic,
    /// Version 17 is outside the blob's `last_comp_version..=version`.
    UnsupportedVersion(u32),
    /// The block offsets and sizes of the header are inconsistent.
    InvalidHeader,
    MemReserveNotTerminated,
    MemReserveInvalid,
    /// An unexpected or unknown structure token.
    BadToken(u32),
    InvalidNodeName,
    InvalidPropertyName,
    /// A name is unterminated or not UTF-8.
    InvalidString,
    /// An offset lies past the end of the blob.
    InvalidOffset,
}

/// One entry of the memory reservation block.
#[derive(Debug, Clone, Copy, PartialEq, Eq, Structural)]
pub struct MemoryReservation {
    pub address: u64,
    pub size: u64,
}

/// A DTB blob, read: its length, its memory reservation block, and its
/// structure block as a [`DeviceTree`].
pub struct Fdt {
    pub size: usize,
    pub reservations: Vec<MemoryReservation>,
    pub tree: DeviceTree,
}

/// The header field at byte `i` of blob `d`.
pub open spec fn field(d: Seq<u8>, i: int) -> int {
    be_cell(d, i)
}

/// The first header check that blob `d` fails, in the order the checks are
/// made; none when the header is sound.
pub open spec fn header_error(d: Seq<u8>) -> Option<FdtParseError> {
    if d.len() < 40 {
        Some(FdtParseError::InvalidLength)
    } else if field(d, 0) != 0xd00d_feed {
        Some(FdtParseError::InvalidMagic)
    } else if !(field(d, 24) <= 17 <= field(d, 20)) {
        Some(FdtParseError::UnsupportedVersion(field(d, 20) as u32))
    } else if field(d, 4) != d.len() {
        Some(FdtParseError::InvalidLength)
    } else if field(d, 16) < 40 || field(d, 16) > field(d, 8) || field(d, 16) % 8 != 0 {
        Some(FdtParseError::InvalidHeader)
    } else if field(d, 8) > d.len() || field(d, 8) % 4 != 0 || field(d, 12) > d.len() {
        Some(FdtParseError::InvalidHeader)
    } else if field(d, 8) + field(d, 36) > d.len() || field(d, 12) + field(d, 32) > d.len() {
        Some(FdtParseError::InvalidHeader)
    } else if field(d, 8) + field(d, 36) > field(d, 12) {
        Some(FdtParseError::InvalidHeader)
    } else {
        None
    }
}

/// The 64-bit big-endian value at byte `i` of `d`.
pub open spec fn be64(d: Seq<u8>, i: int) -> int {
    be_cell(d, i) * 0x1_0000_0000 + be_cell(d, i + 4)
}

/// The reservations of the block from byte `offset` on, up to its
/// terminating all-zero entry, which must start before `end`.
pub open spec fn reservations_from(d: Seq<u8>, offset: int, end: int) -> Result<
    Seq<MemoryReservation>,
    FdtParseError,
>
    decreases d.len() - offset,
{
    if offset >= end {
        Err(FdtParseError::MemReserveNotTerminated)
    } else if offset < 0 || offset + 16 > d.len() {
        Err(FdtParseError::MemReserveInvalid)
    } else if be64(d, offset) == 0 && be64(d, offset + 8) == 0 {
        Ok(Seq::empty())
    } else {
        match reservations_from(d, offset + 16, end) {
            Err(e) => Err(e),
            Ok(rest) => Ok(
                seq![
                    MemoryReservation {
                        address: be64(d, offset) as u64,
                        size: be64(d, offset + 8) as u64,
                    },
                ] + rest,
            ),
        }
    }
}

fn read_be64(d: &[u8], i: usize) -> (r: u64)
    requires
        i + 8 <= d@.len(),
    ensures
        r == be64(d@, i as int),
{
    proof {
        lemma_be_cell_bound(d@, i as int);
        lemma_be_cell_bound(d@, i + 4);
    }
    let length = d.len();
    let high = read_be32(d, i) as u64;
    let low = read_be32(d, i + 4) as u64;
    proof {
        assert(high * 0x1_0000_0000 + low <= u64::MAX) by (nonlinear_arith)
            requires
                high < 0x1_0000_0000,
                low < 0x1_0000_0000,
        ;
    }
    high * 0x1_0000_0000 + low
}

/// Checks the header of blob `d`, in the order [`header_error`] lists.
fn check_header(d: &[u8]) -> (r: Result<(), FdtParseError>)
    ensures
        match header_error(d@) {
            None => r is Ok,
            Some(e) => r == Err::<(), FdtParseError>(e),
        },
{
    if d.len() < 40 {
        return Err(FdtParseError::InvalidLength);
    }
    proof {
        lemma_be_cell_bound(d@, 0);
        lemma_be_cell_bound(d@, 4);
        lemma_be_cell_bound(d@, 8);
        lemma_be_cell_bound(d@, 12);
        lemma_be_cell_bound(d@, 16);
        lemma_be_cell_bound(d@, 20);
        lemma_be_cell_bound(d@, 24);
        lemma_be_cell_bound(d@, 32);
        lemma_be_cell_bound(d@, 36);
    }
    let len = d.len() as u64;
    if read_be32(d, 0) != 0xd00d_feed {
        return Err(FdtParseError::InvalidMagic);
    }
    let version = read_be32(d, 20);
    if !(read_be32(d, 24) <= 17 && 17 <= version) {
        return Err(FdtParseError::UnsupportedVersion(version));
    }
    if read_be32(d, 4) as u64 != len {
        return Err(FdtParseError::InvalidLength);
    }
    let off_struct = read_be32(d, 8) as u64;
    let off_strings = read_be32(d, 12) as u64;
    let off_mem = read_be32(d, 16) as u64;
    let size_strings = read_be32(d, 32) as u64;
    let size_struct = read_be32(d, 36) as u64;
    if off_mem < 40 || off_mem > off_struct || off_mem % 8 != 0 {
        return Err(FdtParseError::InvalidHeader);
    }
    if off_struct > len || off_struct % 4 != 0 || off_strings > len {
        return Err(FdtParseError::InvalidHeader);
    }
    if off_struct + size_struct > len || off_strings + size_strings > len {
        return Err(FdtParseError::InvalidHeader);
    }
    if off_struct + size_struct > off_strings {
        return Err(FdtParseError::InvalidHeader);
    }
    Ok(())
}

/// Reads the memory reservation block from `offset` on; its terminator
/// must start before `end`.
fn read_reservations(d: &[u8], offset: usize, end: usize) -> (r: Result<
    Vec<MemoryReservation>,
    FdtParseError,
>)
    ensures
        match r {
            Ok(v) => reservations_from(d@, offset as int, end as int) == Ok::<
                Seq<MemoryReservation>,
                FdtParseError,
            >(v@),
            Err(e) => reservations_from(d@, offset as int, end as int) == Err::<
                Seq<MemoryReservation>,
                FdtParseError,
            >(e),
        },
{
    let mut found: Vec<MemoryReservation> = Vec::new();
    let mut at = offset;
    loop
        invariant
            offset <= at,
            match reservations_from(d@, at as int, end as int) {
                Ok(rest) => reservations_from(d@, offset as int, end as int) == Ok::<
                    Seq<MemoryReservation>,
                    FdtParseError,
                >(found@ + rest),
                Err(e) => reservations_from(d@, offset as int, end as int) == Err::<
                    Seq<MemoryReservation>,
                    FdtParseError,
                >(e),
            },
        decreases d@.len() - at,
    {
        if at >= end {
            return Err(FdtParseError::MemReserveNotTerminated);
        }
        if at > d.len() || d.len() - at < 16 {
            return Err(FdtParseError::MemReserveInvalid);
        }
        let address = read_be64(d, at);
        let size = read_be64(d, at + 8);
        if address == 0 && size == 0 {
            proof {
                assert(found@ + Seq::<MemoryReservation>::empty() =~= found@);
            }
            return Ok(found);
        }
        let ghost before = found@;
        found.push(MemoryReservation { address, size });
        proof {
            match reservations_from(d@, at + 16, end as int) {
                Ok(rest) => {
                    assert(before + (seq![MemoryReservation { address, size }] + rest) =~= found@ + rest);
                },
                Err(_) => {},
            }
        }
        at = at + 16;
    }
}

/// A byte that a node name may hold: an ASCII letter or digit, or one of
/// `,._+-`.
pub open spec fn node_name_byte(b: u8) -> bool {
    (0x30 <= b <= 0x39) || (0x41 <= b <= 0x5a) || (0x61 <= b <= 0x7a) || b == 0x2c || b == 0x2e
        || b == 0x5f || b == 0x2b || b == 0x2d
}

/// A byte that a property name may hold: a node-name byte, `?` or `#`.
pub open spec fn property_name_byte(b: u8) -> bool {
    node_name_byte(b) || b == 0x3f || b == 0x23
}

/// A node name below the root: one to 31 name bytes, optionally followed by
/// `@` and a non-empty unit address of name bytes.
pub open spec fn valid_node_name(n: Seq<u8>) -> bool {
    let at = index_from(n, 0, 0x40);
    &&& 0 < at <= 31
    &&& forall|i: int| 0 <= i < at ==> #[trigger] node_name_byte(n[i])
    &&& at < n.len() ==> at + 1 < n.len() && forall|i: int|
        at < i < n.len() ==> #[trigger] node_name_byte(n[i])
}

/// A property name: one or more property-name bytes.
pub open spec fn valid_property_name(n: Seq<u8>) -> bool {
    n.len() > 0 && forall|i: int| 0 <= i < n.len() ==> #[trigger] property_name_byte(n[i])
}

fn is_node_name_byte(b: u8) -> (r: bool)
    ensures
        r == node_name_byte(b),
{
    (0x30 <= b && b <= 0x39) || (0x41 <= b && b <= 0x5a) || (0x61 <= b && b <= 0x7a) || b == 0x2c
        || b == 0x2e || b == 0x5f || b == 0x2b || b == 0x2d
}

/// Whether every byte of `s` from `from` to `to` is a node-name byte.
fn all_node_name_bytes(s: &[u8], from: usize, to: usize) -> (r: bool)
    requires
        from <= to <= s@.len(),
    ensures
        r == forall|i: int| from <= i < to ==> #[trigger] node_name_byte(s@[i]),
{
    let mut i = from;
    while i < to
        invariant
            from <= i <= to <= s@.len(),
            forall|j: int| from <= j < i ==> #[trigger] node_name_byte(s@[j]),
        decreases to - i,
    {
        if !is_node_name_byte(s[i]) {
            return false;
        }
        i += 1;
    }
    true
}

/// Whether `n` is a valid node name below the root.
pub fn check_node_name(n: &[u8]) -> (r: bool)
    ensures
        r == valid_node_name(n@),
{
    let at = find_byte(n, 0, 0x40);
    if at == 0 || at > 31 || !all_node_name_bytes(n, 0, at) {
        return false;
    }
    if at < n.len() {
        at + 1 < n.len() && all_node_name_bytes(n, at + 1, n.len())
    } else {
        true
    }
}

/// Whether `n` is a valid property name.
pub fn check_property_name(n: &[u8]) -> (r: bool)
    ensures
        r == valid_property_name(n@),
{
    if n.len() == 0 {
        return false;
    }
    let mut i: usize = 0;
    while i < n.len()
        invariant
            i <= n@.len(),
            forall|j: int| 0 <= j < i ==> #[trigger] property_name_byte(n@[j]),
        decreases n@.len() - i,
    {
        let b = n[i];
        if !(is_node_name_byte(b) || b == 0x3f || b == 0x23) {
            proof {
                assert(!property_name_byte(n@[i as int]));
            }
            return false;
        }
        i += 1;
    }
    true
}

/// The structure token at byte `offset` of blob `d`: an offset past the
/// end is invalid, fewer than four bytes there too short.
pub open spec fn token_spec(d: Seq<u8>, offset: int) -> Result<u32, FdtParseError> {
    if offset > d.len() {
        Err(FdtParseError::InvalidOffset)
    } else if d.len() - offset < 4 {
        Err(FdtParseError::InvalidLength)
    } else {
        Ok(be_cell(d, offset) as u32)
    }
}

/// The structure token at `offset`, as [`token_spec`] reads it.
fn token_at(d: &[u8], offset: u64) -> (r: Result<u32, FdtParseError>)
    ensures
        r == token_spec(d@, offset as int),
        r is Ok ==> offset + 4 <= d@.len(),
{
    if offset > d.len() as u64 {
        return Err(FdtParseError::InvalidOffset);
    }
    if d.len() as u64 - offset < 4 {
        return Err(FdtParseError::InvalidLength);
    }
    Ok(read_be32(d, offset as usize))
}

/// The NUL-terminated UTF-8 string of `d` at `start`, whose NUL must come
/// before `end`: its bytes without the NUL, and the offset just past the
/// NUL.
pub open spec fn string_spec(d: Seq<u8>, start: int, end: int) -> Result<
    (Seq<u8>, int),
    FdtParseError,
> {
    if start >= end {
        Err(FdtParseError::InvalidString)
    } else {
        let k = index_from(d.subrange(start, end), 0, 0);
        if k >= end - start {
            Err(FdtParseError::InvalidString)
        } else if !valid_utf8(d.subrange(start, start + k)) {
            Err(FdtParseError::InvalidString)
        } else {
            Ok((d.subrange(start, start + k), start + k + 1))
        }
    }
}

/// A string that [`string_spec`] finds ends after `start` and by `end`.
pub proof fn lemma_string_spec(d: Seq<u8>, start: int, end: int)
    requires
        0 <= start,
        end <= d.len(),
    ensures
        string_spec(d, start, end) matches Ok((s, next)) ==> start < next <= end,
{
    if start < end {
        lemma_index_from(d.subrange(start, end), 0, 0);
    }
}

/// The string at `start`, as [`string_spec`] reads it.
fn string_at(d: &[u8], start: u64, end: u64) -> (r: Result<(&[u8], u64), FdtParseError>)
    requires
        end <= d@.len(),
    ensures
        match string_spec(d@, start as int, end as int) {
            Ok((s, next)) => r matches Ok((t, n)) && t@ == s && n == next,
            Err(e) => r == Err::<(&[u8], u64), FdtParseError>(e),
        },
        r matches Ok((s, next)) ==> start < next <= end && valid_utf8(s@) && s@ == d@.subrange(
            start as int,
            next - 1,
        ),
{
    let dlen = d.len();
    if start >= end {
        return Err(FdtParseError::InvalidString);
    }
    let window = &d[start as usize..end as usize];
    proof {
        assert(window@ =~= d@.subrange(start as int, end as int));
    }
    let nul = find_byte(window, 0, 0);
    if nul >= window.len() {
        return Err(FdtParseError::InvalidString);
    }
    let text = &window[0..nul];
    proof {
        assert(text@ =~= d@.subrange(start as int, start + nul));
    }
    if !is_utf8(text) {
        return Err(FdtParseError::InvalidString);
    }
    Ok((text, start + nul as u64 + 1))
}

/// `x` rounded up to a multiple of four.
fn align_tag(x: u64) -> (r: u64)
    requires
        x <= u64::MAX - 3,
    ensures
        r % 4 == 0,
        x <= r <= x + 3,
{
    (x + 3) / 4 * 4
}

/// A device tree as mathematical values: node names, parents, properties
/// (node, name, value) in order, and the open nodes, outermost first.
pub struct TreeModel {
    pub names: Seq<Seq<u8>>,
    pub parents: Seq<int>,
    pub props: Seq<(int, Seq<u8>, Seq<u8>)>,
    pub open: Seq<int>,
}

/// A tree with only its open, unnamed root.
pub open spec fn root_model() -> TreeModel {
    TreeModel {
        names: seq![Seq::<u8>::empty()],
        parents: seq![0int],
        props: Seq::empty(),
        open: seq![0int],
    }
}

/// `m` with a child `name` of its innermost open node opened.
pub open spec fn model_begin(m: TreeModel, name: Seq<u8>) -> TreeModel {
    TreeModel {
        names: m.names.push(name),
        parents: m.parents.push(m.open.last()),
        props: m.props,
        open: m.open.push(m.names.len() as int),
    }
}

/// `m` with property `name` = `value` added to its innermost open node.
pub open spec fn model_prop(m: TreeModel, name: Seq<u8>, value: Seq<u8>) -> TreeModel {
    TreeModel {
        names: m.names,
        parents: m.parents,
        props: m.props.push((m.open.last(), name, value)),
        open: m.open,
    }
}

/// `m` with its innermost open node closed.
pub open spec fn model_end(m: TreeModel) -> TreeModel {
    TreeModel { names: m.names, parents: m.parents, props: m.props, open: m.open.drop_last() }
}

/// Tree `t` holds exactly what model `m` does.
pub open spec fn models(t: DeviceTree, m: TreeModel) -> bool {
    &&& t.node_count() == m.names.len()
    &&& m.parents.len() == m.names.len()
    &&& forall|i: int| 0 <= i < m.names.len() ==> #[trigger] t.name_of(i) == m.names[i]
    &&& forall|i: int| 0 <= i < m.names.len() ==> #[trigger] t.parent_of_node(i) == m.parents[i]
    &&& t.prop_count() == m.props.len()
    &&& forall|k: int|
        0 <= k < m.props.len() ==> #[trigger] t.prop_node(k) == m.props[k].0 && t.prop_name(k)
            == m.props[k].1 && t.prop_value(k) == m.props[k].2
    &&& t.open_nodes().len() == m.open.len()
    &&& forall|k: int| 0 <= k < m.open.len() ==> #[trigger] t.open_nodes()[k] as int == m.open[k]
}

/// Opening a node keeps a tree and its model in step.
proof fn lemma_models_begin(before: DeviceTree, after: DeviceTree, m: TreeModel, name: Seq<u8>)
    requires
        models(before, m),
        before.open_nodes().len() > 0,
        after.node_count() == before.node_count() + 1,
        forall|i: int|
            0 <= i < before.node_count() ==> after.name_of(i) == before.name_of(i)
                && after.parent_of_node(i) == before.parent_of_node(i),
        after.name_of(before.node_count()) == name,
        after.parent_of_node(before.node_count()) == before.open_nodes().last(),
        after.prop_count() == before.prop_count(),
        forall|k: int|
            0 <= k < before.prop_count() ==> after.prop_node(k) == before.prop_node(k)
                && after.prop_name(k) == before.prop_name(k) && after.prop_value(k)
                == before.prop_value(k),
        after.open_nodes() == before.open_nodes().push(before.node_count() as usize),
        before.node_count() < usize::MAX,
    ensures
        models(after, model_begin(m, name)),
{
    let m2 = model_begin(m, name);
    assert(before.open_nodes().last() as int == m.open.last()) by {
        assert(before.open_nodes()[before.open_nodes().len() - 1] as int == m.open[m.open.len() - 1]);
    }
    assert forall|k: int| 0 <= k < m2.open.len() implies #[trigger] after.open_nodes()[k] as int
        == m2.open[k] by {
        if k < m.open.len() {
            assert(after.open_nodes()[k] == before.open_nodes()[k]);
        } else {
            assert(after.open_nodes()[k] == before.node_count() as usize);
        }
    }
    assert forall|i: int| 0 <= i < m2.names.len() implies #[trigger] after.name_of(i) == m2.names[i] by {
        if i < m.names.len() {
            assert(after.name_of(i) == before.name_of(i));
        }
    }
    assert forall|i: int| 0 <= i < m2.names.len() implies #[trigger] after.parent_of_node(i)
        == m2.parents[i] by {
        if i < m.names.len() {
            assert(after.parent_of_node(i) == before.parent_of_node(i));
        }
    }
    assert forall|k: int| 0 <= k < m2.props.len() implies #[trigger] after.prop_node(k)
        == m2.props[k].0 && after.prop_name(k) == m2.props[k].1 && after.prop_value(k)
        == m2.props[k].2 by {
        assert(after.prop_node(k) == before.prop_node(k));
    }
}

/// Adding a property keeps a tree and its model in step.
proof fn lemma_models_prop(
    before: DeviceTree,
    after: DeviceTree,
    m: TreeModel,
    name: Seq<u8>,
    value: Seq<u8>,
)
    requires
        models(before, m),
        before.open_nodes().len() > 0,
        after.node_count() == before.node_count(),
        forall|i: int|
            0 <= i < before.node_count() ==> after.name_of(i) == before.name_of(i)
                && after.parent_of_node(i) == before.parent_of_node(i),
        after.prop_count() == before.prop_count() + 1,
        forall|k: int|
            0 <= k < before.prop_count() ==> after.prop_node(k) == before.prop_node(k)
                && after.prop_name(k) == before.prop_name(k) && after.prop_value(k)
                == before.prop_value(k),
        after.prop_node(before.prop_count()) == before.open_nodes().last(),
        after.prop_name(before.prop_count()) == name,
        after.prop_value(before.prop_count()) == value,
        after.open_nodes() == before.open_nodes(),
    ensures
        models(after, model_prop(m, name, value)),
{
    let m2 = model_prop(m, name, value);
    assert(before.open_nodes().last() as int == m.open.last()) by {
        assert(before.open_nodes()[before.open_nodes().len() - 1] as int == m.open[m.open.len() - 1]);
    }
    assert forall|k: int| 0 <= k < m2.props.len() implies #[trigger] after.prop_node(k)
        == m2.props[k].0 && after.prop_name(k) == m2.props[k].1 && after.prop_value(k)
        == m2.props[k].2 by {
        if k < m.props.len() {
            assert(after.prop_node(k) == before.prop_node(k));
        }
    }
    assert forall|i: int| 0 <= i < m2.names.len() implies #[trigger] after.name_of(i) == m2.names[i] by {
        assert(after.name_of(i) == before.name_of(i));
    }
    assert forall|i: int| 0 <= i < m2.names.len() implies #[trigger] after.parent_of_node(i)
        == m2.parents[i] by {
        assert(after.parent_of_node(i) == before.parent_of_node(i));
    }
}

/// Closing a node keeps a tree and its model in step.
proof fn lemma_models_end(before: DeviceTree, after: DeviceTree, m: TreeModel)
    requires
        models(before, m),
        before.open_nodes().len() > 0,
        after.open_nodes() == before.open_nodes().drop_last(),
        after.same_contents(before),
    ensures
        models(after, model_end(m)),
{
    let m2 = model_end(m);
    assert(after.node_count() == before.node_count());
    assert(after.prop_count() == before.prop_count());
    assert(after.open_nodes().len() == m2.open.len());
    assert forall|k: int| 0 <= k < m2.open.len() implies #[trigger] after.open_nodes()[k] as int
        == m2.open[k] by {
        assert(after.open_nodes()[k] == before.open_nodes()[k]);
    }
    assert forall|i: int| 0 <= i < m2.names.len() implies #[trigger] after.name_of(i) == m2.names[i] by {
        assert(after.name_of(i) == before.name_of(i));
    }
    assert forall|i: int| 0 <= i < m2.names.len() implies #[trigger] after.parent_of_node(i)
        == m2.parents[i] by {
        assert(after.parent_of_node(i) == before.parent_of_node(i));
    }
    assert forall|k: int| 0 <= k < m2.props.len() implies #[trigger] after.prop_node(k)
        == m2.props[k].0 && after.prop_name(k) == m2.props[k].1 && after.prop_value(k)
        == m2.props[k].2 by {
        assert(after.prop_node(k) == before.prop_node(k));
        assert(after.prop_name(k) == before.prop_name(k));
        assert(after.prop_value(k) == before.prop_value(k));
    }
}

/// `x` rounded up to a multiple of four.
pub open spec fn align4(x: int) -> int {
    (x + 3) / 4 * 4
}

/// The property whose `PROP` token is at `offset`: its name, read from
/// the strings block at `so` of `ss` bytes, which must be valid, its value,
/// which must lie inside the blob, and the offset just past the value.
pub open spec fn prop_spec(d: Seq<u8>, so: int, ss: int, offset: int) -> Result<
    (Seq<u8>, Seq<u8>, int),
    FdtParseError,
> {
    match token_spec(d, offset + 4) {
        Err(e) => Err(e),
        Ok(value_len) => match token_spec(d, offset + 8) {
            Err(e) => Err(e),
            Ok(name_offset) => if so + name_offset >= so + ss {
                Err(FdtParseError::InvalidLength)
            } else {
                match string_spec(d, so + name_offset, so + ss) {
                    Err(e) => Err(e),
                    Ok((name, _)) => if !valid_property_name(name) {
                        Err(FdtParseError::InvalidPropertyName)
                    } else if offset + 12 + value_len > d.len() {
                        Err(FdtParseError::InvalidLength)
                    } else {
                        Ok(
                            (
                                name,
                                d.subrange(offset + 12, offset + 12 + value_len),
                                offset + 12 + value_len,
                            ),
                        )
                    },
                }
            },
        },
    }
}

pub proof fn lemma_prop_spec(d: Seq<u8>, so: int, ss: int, offset: int)
    ensures
        prop_spec(d, so, ss, offset) matches Ok((_, _, end)) ==> offset < end <= d.len(),
{
}

/// Reads the property whose `PROP` token is at `offset`, as [`prop_spec`]
/// describes.
fn read_property(d: &[u8], offset: u64, off_strings: u64, size_strings: u64) -> (r: Result<
    (&[u8], &[u8], u64),
    FdtParseError,
>)
    requires
        d@.len() <= u32::MAX,
        offset <= d@.len() + 3,
        off_strings + size_strings <= d@.len(),
    ensures
        match prop_spec(d@, off_strings as int, size_strings as int, offset as int) {
            Ok((name, value, end)) => r matches Ok((n, v, e)) && n@ == name && v@ == value && e
                == end,
            Err(err) => r == Err::<(&[u8], &[u8], u64), FdtParseError>(err),
        },
{
    let len = d.len() as u64;
    let at = offset + 4;
    let value_len = token_at(d, at)? as u64;
    let name_offset = token_at(d, at + 4)? as u64;
    let str_start = off_strings + name_offset;
    if str_start >= off_strings + size_strings {
        return Err(FdtParseError::InvalidLength);
    }
    let (name, _) = string_at(d, str_start, off_strings + size_strings)?;
    if !check_property_name(name) {
        return Err(FdtParseError::InvalidPropertyName);
    }
    let value_start = at + 8;
    let value_end = value_start + value_len;
    if value_end > len {
        return Err(FdtParseError::InvalidLength);
    }
    let value = &d[value_start as usize..value_end as usize];
    proof {
        assert(value@ =~= d@.subrange(offset + 12, offset + 12 + value_len));
    }
    Ok((name, value, value_end))
}

/// Walks the structure block of `d` from the token at `offset`, `depth`
/// nodes deep (the root being depth one), building on `m`: `BEGIN_NODE`
/// opens a node whose name is valid (the root's is empty), `PROP` adds a
/// property whose name, read from the strings block at `so` of `ss` bytes,
/// is valid and whose value lies inside the blob, `NOP` is skipped, and
/// `END_NODE` closes a node; the tree and the offset after the root's
/// `END_NODE`, or the first fault.
pub open spec fn walk(d: Seq<u8>, so: int, ss: int, offset: int, depth: int, m: TreeModel) -> Result<
    (TreeModel, int),
    FdtParseError,
>
    decreases d.len() + 4 - offset,
{
    if offset < 0 || so < 0 || ss < 0 || so + ss > d.len() {
        Err(FdtParseError::InvalidOffset)
    } else {
        match token_spec(d, offset) {
            Err(e) => Err(e),
            Ok(token) => if token == 1 {
                proof {
                    lemma_string_spec(d, offset + 4, d.len() as int);
                }
                match string_spec(d, offset + 4, d.len() as int) {
                    Err(e) => Err(e),
                    Ok((name, next)) => if depth == 0 {
                        if name.len() != 0 {
                            Err(FdtParseError::InvalidNodeName)
                        } else {
                            walk(d, so, ss, align4(next), 1, m)
                        }
                    } else if name.len() == 0 || !valid_node_name(name) {
                        Err(FdtParseError::InvalidNodeName)
                    } else {
                        walk(d, so, ss, align4(next), depth + 1, model_begin(m, name))
                    },
                }
            } else if token == 2 {
                if depth == 0 {
                    Err(FdtParseError::BadToken(2))
                } else if depth == 1 {
                    Ok((m, offset + 4))
                } else {
                    walk(d, so, ss, offset + 4, depth - 1, model_end(m))
                }
            } else if token == 3 {
                proof {
                    lemma_prop_spec(d, so, ss, offset);
                }
                match prop_spec(d, so, ss, offset) {
                    Err(e) => Err(e),
                    Ok((name, value, end)) => walk(
                        d,
                        so,
                        ss,
                        align4(end),
                        depth,
                        if depth > 0 {
                            model_prop(m, name, value)
                        } else {
                            m
                        },
                    ),
                }
            } else if token == 4 {
                walk(d, so, ss, offset + 4, depth, m)
            } else {
                Err(FdtParseError::BadToken(token))
            },
        }
    }
}

/// The tree that the structure block of `d` at `off_struct` holds: it must
/// start with the root's `BEGIN_NODE` and, after the root's `END_NODE`,
/// end with `END`.
pub open spec fn structure_spec(d: Seq<u8>, so: int, ss: int, off_struct: int) -> Result<
    TreeModel,
    FdtParseError,
> {
    match token_spec(d, off_struct) {
        Err(e) => Err(e),
        Ok(first) => if first != 1 {
            if first == 2 || first == 3 || first == 4 || first == 9 {
                Err(FdtParseError::BadToken(1))
            } else {
                Err(FdtParseError::BadToken(first))
            }
        } else {
            match walk(d, so, ss, off_struct, 0, root_model()) {
                Err(e) => Err(e),
                Ok((m, end)) => match token_spec(d, end) {
                    Err(e) => Err(e),
                    Ok(last) => if last != 9 {
                        if last == 1 || last == 2 || last == 3 || last == 4 {
                            Err(FdtParseError::BadToken(9))
                        } else {
                            Err(FdtParseError::BadToken(last))
                        }
                    } else {
                        Ok(m)
                    },
                },
            }
        },
    }
}

/// Reads the structure block from `off_struct` into a tree, as
/// [`structure_spec`] describes: each `BEGIN_NODE` below the root opens a
/// node, each `PROP` adds a property named from the strings block at
/// `off_strings` (of `size_strings` bytes) to the innermost open node, and
/// the root's `END_NODE` must be followed by `END`.
#[verifier::spinoff_prover]
#[verifier::rlimit(40)]
fn read_structure(d: &[u8], off_struct: u64, off_strings: u64, size_strings: u64) -> (r: Result<
    DeviceTree,
    FdtParseError,
>)
    requires
        d@.len() <= u32::MAX,
        off_strings + size_strings <= d@.len(),
    ensures
        match structure_spec(d@, off_strings as int, size_strings as int, off_struct as int) {
            Ok(m) => r matches Ok(t) && t.wf() && models(t, m),
            Err(e) => r == Err::<DeviceTree, FdtParseError>(e),
        },
{
    let len = d.len() as u64;
    let first = token_at(d, off_struct)?;
    if first != 1 {
        if first == 2 || first == 3 || first == 4 || first == 9 {
            return Err(FdtParseError::BadToken(1));
        }
        return Err(FdtParseError::BadToken(first));
    }
    let ghost so = off_strings as int;
    let ghost ss = size_strings as int;
    let ghost total = walk(d@, so, ss, off_struct as int, 0, root_model());
    let mut tree = DeviceTree::new();
    let ghost mut m = root_model();
    let mut offset = off_struct;
    let mut depth: u64 = 0;
    proof {
        assert(models(tree, m));
    }
    loop
        invariant_except_break
            m.open.len() == if depth == 0 {
                1
            } else {
                depth
            },
            total == walk(d@, so, ss, offset as int, depth as int, m),
        invariant
            len == d@.len(),
            len <= u32::MAX,
            off_strings + size_strings <= len,
            so == off_strings,
            ss == size_strings,
            offset <= len + 3,
            tree.wf(),
            models(tree, m),
            depth <= offset,
            token_spec(d@, off_struct as int) == Ok::<u32, FdtParseError>(1u32),
            total == walk(d@, so, ss, off_struct as int, 0, root_model()),
        ensures
            total == Ok::<(TreeModel, int), FdtParseError>((m, offset as int)),
            tree.wf(),
            models(tree, m),
            offset <= len + 3,
        decreases len + 4 - offset,
    {
        let token = token_at(d, offset)?;
        if token == 1 {
            let name_start = offset + 4;
            let (name, next) = string_at(d, name_start, len)?;
            if depth == 0 {
                if name.len() != 0 {
                    return Err(FdtParseError::InvalidNodeName);
                }
            } else {
                if name.len() == 0 || !check_node_name(name) {
                    return Err(FdtParseError::InvalidNodeName);
                }
                let ghost before = tree;
                tree.begin_node(name);
                let _count: usize = tree.len();
                proof {
                    lemma_models_begin(before, tree, m, name@);
                    m = model_begin(m, name@);
                }
            }
            depth = depth + 1;
            offset = align_tag(next);
        } else if token == 2 {
            if depth == 0 {
                return Err(FdtParseError::BadToken(2));
            }
            depth = depth - 1;
            offset = offset + 4;
            if depth == 0 {
                break;
            }
            let ghost before = tree;
            tree.end_node();
            proof {
                lemma_models_end(before, tree, m);
                m = model_end(m);
            }
        } else if token == 3 {
            let (name, value, value_end) = read_property(d, offset, off_strings, size_strings)?;
            if depth > 0 {
                let ghost before = tree;
                tree.property(name, value);
                proof {
                    lemma_models_prop(before, tree, m, name@, value@);
                    m = model_prop(m, name@, value@);
                }
            }
            offset = align_tag(value_end);
        } else if token == 4 {
            offset = offset + 4;
        } else {
            return Err(FdtParseError::BadToken(token));
        }
    }
    let last = token_at(d, offset)?;
    if last != 9 {
        if last == 1 || last == 2 || last == 3 || last == 4 {
            return Err(FdtParseError::BadToken(9));
        }
        return Err(FdtParseError::BadToken(last));
    }
    Ok(tree)
}

impl Fdt {
    /// Reads DTB blob `data`: its header is checked first, in the order
    /// [`header_error`] lists, then its memory reservation block, then its
    /// structure block.
    pub fn new(data: &[u8]) -> (r: Result<Fdt, FdtParseError>)
        ensures
            header_error(data@) matches Some(e) ==> r == Err::<Fdt, FdtParseError>(e),
            header_error(data@) is None ==> (match reservations_from(
                data@,
                field(data@, 16),
                field(data@, 8),
            ) {
                Err(e) => r == Err::<Fdt, FdtParseError>(e),
                Ok(reserved) => match structure_spec(
                    data@,
                    field(data@, 12),
                    field(data@, 32),
                    field(data@, 8),
                ) {
                    Err(e) => r == Err::<Fdt, FdtParseError>(e),
                    Ok(m) => r matches Ok(f) && f.size == data@.len() && f.reservations@ == reserved
                        && f.tree.wf() && models(f.tree, m),
                },
            }),
    {
        check_header(data)?;
        proof {
            lemma_be_cell_bound(data@, 4);
            lemma_be_cell_bound(data@, 8);
            lemma_be_cell_bound(data@, 12);
            lemma_be_cell_bound(data@, 16);
            lemma_be_cell_bound(data@, 32);
        }
        let off_struct = read_be32(data, 8);
        let off_strings = read_be32(data, 12);
        let off_mem = read_be32(data, 16);
        let size_strings = read_be32(data, 32);
        let reservations = read_reservations(data, off_mem as usize, off_struct as usize)?;
        let tree = read_structure(data, off_struct as u64, off_strings as u64, size_strings as u64)?;
        Ok(Fdt { size: data.len(), reservations, tree })
    }
}

// ----- Status values and single integers -----

/// The bytes of `okay`.
pub open spec fn word_okay() -> Seq<u8> {
    seq![0x6fu8, 0x6bu8, 0x61u8, 0x79u8]
}

/// The bytes of `disadbled`.
pub open spec fn word_disadbled() -> Seq<u8> {
    seq![0x64u8, 0x69u8, 0x73u8, 0x61u8, 0x64u8, 0x62u8, 0x6cu8, 0x65u8, 0x64u8]
}

/// The bytes of `reserved`.
pub open spec fn word_reserved() -> Seq<u8> {
    seq![0x72u8, 0x65u8, 0x73u8, 0x65u8, 0x72u8, 0x76u8, 0x65u8, 0x64u8]
}

/// The bytes of `fail`.
pub open spec fn word_fail() -> Seq<u8> {
    seq![0x66u8, 0x61u8, 0x69u8, 0x6cu8]
}

/// The bytes of `fail-sss`.
pub open spec fn word_fail_sss() -> Seq<u8> {
    seq![0x66u8, 0x61u8, 0x69u8, 0x6cu8, 0x2du8, 0x73u8, 0x73u8, 0x73u8]
}

/// How node `i`'s `status` reads: `Some(true)` when it is absent or `okay`,
/// `Some(false)` for `disadbled`, `reserved`, `fail` and `fail-sss` (the
/// status names as the tree library spells them), none for any other value.
pub open spec fn status_value(t: DeviceTree, i: int) -> Option<bool> {
    match prop_of(t, i, name_status()) {
        None => Some(true),
        Some(v) => match cstr_of(v) {
            None => None,
            Some(s) => if s == word_okay() {
                Some(true)
            } else if s == word_disadbled() || s == word_reserved() || s == word_fail() || s
                == word_fail_sss() {
                Some(false)
            } else {
                None
            },
        },
    }
}

/// The integer that the cells of `v` hold, when `v` is whole cells and at
/// most two of them.
pub open spec fn cells_int(v: Seq<u8>) -> Option<u64> {
    if v.len() % 4 != 0 || v.len() > 8 {
        None
    } else {
        Some(cells_value(v, 0, (v.len() / 4) as nat) as u64)
    }
}

/// The integer that the cells of `v` hold, as [`cells_int`] reads it.
pub fn read_cells_int(v: &[u8]) -> (r: Option<u64>)
    ensures
        r == cells_int(v@),
{
    if v.len() % 4 != 0 || v.len() > 8 {
        return None;
    }
    Some(read_cells(v, 0, (v.len() / 4) as u64))
}

impl DeviceTree {
    /// How `node`'s `status` reads, as [`status_value`] defines it.
    pub fn status_value(&self, node: usize) -> (r: Option<bool>)
        requires
            self.wf(),
        ensures
            r == status_value(*self, node as int),
    {
        let name: [u8; 6] = [0x73u8, 0x74u8, 0x61u8, 0x74u8, 0x75u8, 0x73u8];
        let okay: [u8; 4] = [0x6fu8, 0x6bu8, 0x61u8, 0x79u8];
        let disabled: [u8; 9] = [0x64u8, 0x69u8, 0x73u8, 0x61u8, 0x64u8, 0x62u8, 0x6cu8, 0x65u8, 0x64u8];
        let reserved: [u8; 8] = [0x72u8, 0x65u8, 0x73u8, 0x65u8, 0x72u8, 0x76u8, 0x65u8, 0x64u8];
        let fail: [u8; 4] = [0x66u8, 0x61u8, 0x69u8, 0x6cu8];
        let fail_sss: [u8; 8] = [0x66u8, 0x61u8, 0x69u8, 0x6cu8, 0x2du8, 0x73u8, 0x73u8, 0x73u8];
        proof {
            assert(name@ =~= name_status());
            assert(okay@ =~= word_okay());
            assert(disabled@ =~= word_disadbled());
            assert(reserved@ =~= word_reserved());
            assert(fail@ =~= word_fail());
            assert(fail_sss@ =~= word_fail_sss());
        }
        let v = match self.property_value(node, &name) {
            None => return Some(true),
            Some(v) => v,
        };
        let s = match cstr(v) {
            None => return None,
            Some(s) => s,
        };
        if bytes_eq(s, &okay) {
            Some(true)
        } else if bytes_eq(s, &disabled) || bytes_eq(s, &reserved) || bytes_eq(s, &fail) || bytes_eq(
            s,
            &fail_sss,
        ) {
            Some(false)
        } else {
            None
        }
    }

    /// Whether `node` has a property named `name`.
    pub fn has_property(&self, node: usize, name: &[u8]) -> (r: bool)
        requires
            self.wf(),
        ensures
            r == prop_of(*self, node as int, name@) is Some,
    {
        self.property_value(node, name).is_some()
    }
}

impl FdtParseError {
    /// The error as it is shown: the variant's name, with its number in brackets.
    pub open spec fn debug_text(self) -> Seq<char> {
        match self {
            FdtParseError::InvalidLength => "InvalidLength"@,
            FdtParseError::InvalidMagic => "InvalidMagic"@,
            FdtParseError::UnsupportedVersion(v) => "UnsupportedVersion("@ + dec_text(v as nat) + ")"@,
            FdtParseError::InvalidHeader => "InvalidHeader"@,
            FdtParseError::MemReserveNotTerminated => "MemReserveNotTerminated"@,
            FdtParseError::MemReserveInvalid => "MemReserveInvalid"@,
            FdtParseError::BadToken(v) => "BadToken("@ + dec_text(v as nat) + ")"@,
            FdtParseError::InvalidNodeName => "InvalidNodeName"@,
            FdtParseError::InvalidPropertyName => "InvalidPropertyName"@,
            FdtParseError::InvalidString => "InvalidString"@,
            FdtParseError::InvalidOffset => "InvalidOffset"@,
        }
    }

    /// The error as it is shown.
    pub fn to_string(&self) -> (r: String)
        ensures
            r@ == self.debug_text(),
    {
        match self {
            FdtParseError::InvalidLength => {
                String::from_str("InvalidLength")
            }
            FdtParseError::InvalidMagic => {
                String::from_str("InvalidMagic")
            }
            FdtParseError::UnsupportedVersion(v) => {
                let mut text = String::from_str("UnsupportedVersion(");
                append_decimal(&mut text, *v as u64);
                text.append(")");
                text
            }
            FdtParseError::InvalidHeader => {
                String::from_str("InvalidHeader")
            }
            FdtParseError::MemReserveNotTerminated => {
                String::from_str("MemReserveNotTerminated")
            }
            FdtParseError::MemReserveInvalid => {
                String::from_str("MemReserveInvalid")
            }
            FdtParseError::BadToken(v) => {
                let mut text = String::from_str("BadToken(");
                append_decimal(&mut text, *v as u64);
                text.append(")");
                text
            }
            FdtParseError::InvalidNodeName => {
                String::from_str("InvalidNodeName")
            }
            FdtParseError::InvalidPropertyName => {
                String::from_str("InvalidPropertyName")
            }
            FdtParseError::InvalidString => {
                String::from_str("InvalidString")
            }
            FdtParseError::InvalidOffset => {
                String::from_str("InvalidOffset")
            }
        }
    }
}


/// `t1` and `t2` have the same nodes, names and parents, and the same value
/// for every property not named `skip`.
pub open spec fn agree_but_property(t1: DeviceTree, t2: DeviceTree, skip: Seq<u8>) -> bool {
    &&& t1.node_count() == t2.node_count()
    &&& forall|i: int| #[trigger] t1.name_of(i) == t2.name_of(i)
    &&& forall|i: int| #[trigger] t1.parent_of_node(i) == t2.parent_of_node(i)
    &&& forall|i: int, n: Seq<u8>| n != skip ==> #[trigger] prop_of(t1, i, n) == prop_of(t2, i, n)
}

proof fn lemma_child_from_agree(
    t1: DeviceTree,
    t2: DeviceTree,
    skip: Seq<u8>,
    parent: int,
    component: Seq<u8>,
    i: int,
)
    requires
        agree_but_property(t1, t2, skip),
    ensures
        child_from(t1, parent, component, i) == child_from(t2, parent, component, i),
    decreases t1.node_count() - i,
{
    if 1 <= i < t1.node_count() {
        assert(t1.name_of(i) == t2.name_of(i));
        assert(t1.parent_of_node(i) == t2.parent_of_node(i));
        lemma_child_from_agree(t1, t2, skip, parent, component, i + 1);
    }
}

proof fn lemma_find_from_agree(t1: DeviceTree, t2: DeviceTree, skip: Seq<u8>, node: int, path: Seq<u8>, pos: int)
    requires
        agree_but_property(t1, t2, skip),
    ensures
        find_from(t1, node, path, pos) == find_from(t2, node, path, pos),
    decreases path.len() - pos,
{
    if 0 <= pos <= path.len() {
        let start = skip_slashes(path, pos);
        if start < path.len() && start >= pos {
            let end = index_from(path, start, 0x2f);
            if start < end <= path.len() {
                lemma_child_from_agree(t1, t2, skip, node, path.subrange(start, end), 1);
                if let Some(child) = child_from(t1, node, path.subrange(start, end), 1) {
                    lemma_find_from_agree(t1, t2, skip, child, path, end);
                }
            }
        }
    }
}

/// Trees that differ only in the values of properties named `skip` find
/// the same node at every path.
pub proof fn lemma_find_node_agree(t1: DeviceTree, t2: DeviceTree, skip: Seq<u8>, path: Seq<u8>)
    requires
        agree_but_property(t1, t2, skip),
    ensures
        find_node_spec(t1, path) == find_node_spec(t2, path),
{
    lemma_find_from_agree(t1, t2, skip, 0, path, 0);
}

proof fn lemma_translate_from_agree(t1: DeviceTree, t2: DeviceTree, bus_path: Seq<u8>, address: u64)
    requires
        agree_but_property(t1, t2, name_stdout_path()),
    ensures
        translate_from(t1, bus_path, address) == translate_from(t2, bus_path, address),
    decreases bus_path.len(),
{
    if bus_path != root_path() {
        lemma_find_node_agree(t1, t2, name_stdout_path(), bus_path);
        if let Some(b) = find_node_spec(t1, bus_path) {
            assert(name_ranges().len() == 6 && name_address_cells().len() == 14);
            assert(name_size_cells()[0] != name_stdout_path()[0]);
            assert(prop_of(t1, b, name_ranges()) == prop_of(t2, b, name_ranges()));
            assert(prop_of(t1, b, name_address_cells()) == prop_of(t2, b, name_address_cells()));
            assert(prop_of(t1, b, name_size_cells()) == prop_of(t2, b, name_size_cells()));
            assert(t1.parent_of_node(b) == t2.parent_of_node(b));
            let p = t1.parent_of_node(b);
            assert(prop_of(t1, p, name_address_cells()) == prop_of(t2, p, name_address_cells()));
            assert(through_bus(t1, b, address) == through_bus(t2, b, address));
            if let Ok(a) = through_bus(t1, b, address) {
                if let Some(up) = parent_of(bus_path) {
                    if up.len() < bus_path.len() {
                        lemma_translate_from_agree(t1, t2, up, a);
                    }
                }
            }
        }
    }
}

/// Trees that differ only in the values of `stdout-path` properties
/// translate every device address alike.
pub proof fn lemma_translate_device_agree(t1: DeviceTree, t2: DeviceTree, device_path: Seq<u8>, address: u64)
    requires
        agree_but_property(t1, t2, name_stdout_path()),
    ensures
        translate_device(t1, device_path, address) == translate_device(t2, device_path, address),
{
    if let Some(bus) = parent_of(device_path) {
        lemma_translate_from_agree(t1, t2, bus, address);
    }
}

} // verus!
