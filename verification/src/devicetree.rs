//! The board description that firmware hands over.
//!
//! The blob is read by the `fdt` crate. Its readers stop the program on a blob
//! that is not well formed, so that is checked first; what they find is taken
//! over into nodes of plain values, on which all decisions are made.
use vstd::prelude::*;
use vstd::slice::slice_subrange;

verus! {

/// A property: its bytes, and its text where it is one.
#[derive(Debug)]
pub struct Property {
    pub name: String,
    pub value: Vec<u8>,
    pub text: Option<String>,
}

/// A node with what is read of it. The region is the first one of `reg`.
#[derive(Debug)]
pub struct Node {
    pub name: String,
    pub compatible: Option<Vec<String>>,
    pub region: Option<(u64, Option<usize>)>,
    pub properties: Vec<Property>,
}

pub struct PropertyView {
    pub name: Seq<char>,
    pub value: Seq<u8>,
    pub text: Option<Seq<char>>,
}

pub struct NodeView {
    pub name: Seq<char>,
    pub compatible: Option<Seq<Seq<char>>>,
    pub region: Option<(u64, Option<usize>)>,
    pub properties: Seq<PropertyView>,
}

pub open spec fn strings(list: Seq<String>) -> Seq<Seq<char>> {
    Seq::new(list.len(), |i: int| list[i]@)
}

impl View for Property {
    type V = PropertyView;

    open spec fn view(&self) -> PropertyView {
        PropertyView {
            name: self.name@,
            value: self.value@,
            text: match self.text {
                None => None,
                Some(text) => Some(text@),
            },
        }
    }
}

impl View for Node {
    type V = NodeView;

    open spec fn view(&self) -> NodeView {
        NodeView {
            name: self.name@,
            compatible: match self.compatible {
                None => None,
                Some(list) => Some(strings(list@)),
            },
            region: self.region,
            properties: Seq::new(self.properties@.len(), |i: int| self.properties@[i]@),
        }
    }
}

pub open spec fn views(nodes: Seq<Node>) -> Seq<NodeView> {
    Seq::new(nodes.len(), |i: int| nodes[i]@)
}

/// Four bytes as a number, the highest first.
pub open spec fn be32(s: Seq<u8>, p: int) -> int {
    0x100_0000 * s[p] + 0x1_0000 * s[p + 1] + 0x100 * s[p + 2] + s[p + 3]
}

/// A byte within a character that is no longer its first.
pub open spec fn goes_on(s: Seq<u8>, p: int, low: u8, high: u8) -> bool {
    p < s.len() && low <= s[p] <= high
}

/// How many bytes the UTF-8 character at a place takes; none where there is none.
pub open spec fn char_length(s: Seq<u8>, p: int) -> int {
    let first = s[p];
    if first < 0x80 {
        1
    } else if 0xc2 <= first <= 0xdf && goes_on(s, p + 1, 0x80, 0xbf) {
        2
    } else if 0xe0 <= first <= 0xef && goes_on(
        s,
        p + 1,
        if first == 0xe0 {
            0xa0
        } else {
            0x80
        },
        if first == 0xed {
            0x9f
        } else {
            0xbf
        },
    ) && goes_on(s, p + 2, 0x80, 0xbf) {
        3
    } else if 0xf0 <= first <= 0xf4 && goes_on(
        s,
        p + 1,
        if first == 0xf0 {
            0x90
        } else {
            0x80
        },
        if first == 0xf4 {
            0x8f
        } else {
            0xbf
        },
    ) && goes_on(s, p + 2, 0x80, 0xbf) && goes_on(s, p + 3, 0x80, 0xbf) {
        4
    } else {
        0
    }
}

/// The end of a name: UTF-8, closed by a zero.
pub open spec fn text_end(s: Seq<u8>, p: int) -> Option<int>
    decreases s.len() - p,
{
    if p < 0 || p >= s.len() {
        None
    } else if s[p] == 0 {
        Some(p)
    } else if char_length(s, p) < 1 {
        None
    } else {
        text_end(s, p + char_length(s, p))
    }
}

/// Some bytes and the zero behind them stand at a place.
pub open spec fn spells(s: Seq<u8>, p: int, text: Seq<u8>) -> bool {
    &&& 0 <= p && p + text.len() < s.len()
    &&& s.subrange(p, p + text.len() as int) == text
    &&& s[p + text.len() as int] == 0
}

/// `#address-cells`
pub open spec fn address_cells() -> Seq<u8> {
    seq![35u8, 97, 100, 100, 114, 101, 115, 115, 45, 99, 101, 108, 108, 115]
}

/// `#size-cells`
pub open spec fn size_cells() -> Seq<u8> {
    seq![35u8, 115, 105, 122, 101, 45, 99, 101, 108, 108, 115]
}

/// A name that a property can have. One that begins with a slash would pass for a path
/// among the aliases, which `fdt` resolves again and again where it leads to itself; and
/// both counts of cells hold one.
pub open spec fn names_property(t: Seq<u8>, p: int, length: int) -> bool {
    &&& text_end(t, p) is Some
    &&& t[p] != 47
    &&& length < 4 ==> !spells(t, p, address_cells()) && !spells(t, p, size_cells())
}

/// Behind the fillers that start at a place.
pub open spec fn fillers_end(s: Seq<u8>, p: int) -> int
    decreases s.len() - p,
{
    if 0 <= p && p + 4 <= s.len() && be32(s, p) == 4 {
        fillers_end(s, p + 4)
    } else {
        p
    }
}

pub open spec fn round4(n: int) -> int {
    (n + 3) / 4 * 4
}

/// Behind the properties that start at a place.
pub open spec fn properties_end(s: Seq<u8>, t: Seq<u8>, p: int) -> Option<int>
    decreases s.len() - p,
{
    if p < 0 || p + 4 > s.len() {
        None
    } else if be32(s, p) != 3 {
        Some(p)
    } else if p + 12 > s.len() {
        None
    } else {
        let next = p + 12 + round4(be32(s, p + 4));
        if next > s.len() || next < p + 12 {
            None
        } else if !names_property(t, be32(s, p + 8), be32(s, p + 4)) {
            None
        } else {
            properties_end(s, t, next)
        }
    }
}

/// Behind the node that starts at a place. Fillers may stand before its end.
pub open spec fn node_end(s: Seq<u8>, t: Seq<u8>, p: int, depth: int) -> Option<int>
    decreases s.len() - p, 0int,
{
    if p < 0 || p + 4 > s.len() || be32(s, p) != 1 || depth >= 64 {
        None
    } else {
        match text_end(s, p + 4) {
            None => None,
            Some(q) => {
                match properties_end(s, t, p + 4 + round4(q + 1 - (p + 4))) {
                    None => None,
                    Some(c) => if p < c <= s.len() {
                        match children_end(s, t, c, depth + 1) {
                            None => None,
                            Some(e) => closed_at(s, fillers_end(s, e)),
                        }
                    } else {
                        None
                    },
                }
            },
        }
    }
}

/// Behind the end of a node, if it stands at that place.
pub open spec fn closed_at(s: Seq<u8>, e: int) -> Option<int> {
    if 0 <= e && e + 4 <= s.len() && be32(s, e) == 2 {
        Some(e + 4)
    } else {
        None
    }
}

/// Behind the nodes that start at a place.
pub open spec fn children_end(s: Seq<u8>, t: Seq<u8>, p: int, depth: int) -> Option<int>
    decreases s.len() - p, 1int,
{
    if p < 0 || p + 4 > s.len() {
        None
    } else if be32(s, p) != 1 {
        Some(p)
    } else {
        match node_end(s, t, p, depth) {
            None => None,
            Some(e) => if p < e <= s.len() {
                children_end(s, t, e, depth)
            } else {
                None
            },
        }
    }
}

pub open spec fn structure(blob: Seq<u8>) -> Seq<u8> {
    blob.subrange(be32(blob, 8), be32(blob, 8) + be32(blob, 36))
}

pub open spec fn names(blob: Seq<u8>) -> Seq<u8> {
    blob.subrange(be32(blob, 12), be32(blob, 12) + be32(blob, 32))
}

/// One tree of nodes whose names are all there. Fillers stand before the end of a node and
/// nowhere else: `fdt`, where it skips a node, takes fillers only there and panics at a
/// property or a node behind them.
pub open spec fn well_formed(blob: Seq<u8>) -> bool {
    &&& blob.len() >= 40
    &&& be32(blob, 0) == 0xd00dfeed
    &&& be32(blob, 4) <= blob.len()
    &&& be32(blob, 8) + be32(blob, 36) <= blob.len()
    &&& be32(blob, 12) + be32(blob, 32) <= blob.len()
    &&& node_end(structure(blob), names(blob), 0, 1) matches Some(e) && 0 <= e && e + 4
        <= structure(blob).len() && be32(structure(blob), e) == 9
}

fn number(s: &[u8], p: usize) -> (r: u32)
    requires
        p + 4 <= s@.len(),
    ensures
        r == be32(s@, p as int),
{
    0x100_0000 * (s[p] as u32) + 0x1_0000 * (s[p + 1] as u32) + 0x100 * (s[p + 2] as u32) + (s[p
        + 3] as u32)
}

fn find_text_end(s: &[u8], p: usize) -> (r: Option<usize>)
    ensures
        match r {
            None => text_end(s@, p as int) is None,
            Some(q) => text_end(s@, p as int) == Some(q as int) && p <= q < s@.len(),
        },
{
    let mut q: usize = p;
    while q < s.len()
        invariant
            p <= q,
            p >= s@.len() ==> q == p,
            text_end(s@, p as int) == text_end(s@, q as int),
        decreases s@.len() - q,
    {
        if s[q] == 0 {
            return Some(q);
        }
        let length: usize = find_char_length(s, q);
        if length == 0 {
            return None;
        }
        q = q + length;
    }
    None
}

fn is_within(s: &[u8], p: usize, low: u8, high: u8) -> (r: bool)
    ensures
        r == goes_on(s@, p as int, low, high),
{
    p < s.len() && low <= s[p] && s[p] <= high
}

fn find_char_length(s: &[u8], p: usize) -> (r: usize)
    requires
        p < s@.len(),
    ensures
        r == char_length(s@, p as int),
        p + r <= s@.len(),
{
    let first: u8 = s[p];
    if first < 0x80 {
        return 1;
    }
    if s.len() - p < 2 {
        return 0;
    }
    if 0xc2 <= first && first <= 0xdf {
        if is_within(s, p + 1, 0x80, 0xbf) {
            return 2;
        }
        return 0;
    }
    if s.len() - p < 3 {
        return 0;
    }
    if 0xe0 <= first && first <= 0xef {
        let low: u8 = if first == 0xe0 {
            0xa0
        } else {
            0x80
        };
        let high: u8 = if first == 0xed {
            0x9f
        } else {
            0xbf
        };
        if is_within(s, p + 1, low, high) && is_within(s, p + 2, 0x80, 0xbf) {
            return 3;
        }
        return 0;
    }
    if s.len() - p < 4 {
        return 0;
    }
    if 0xf0 <= first && first <= 0xf4 {
        let low: u8 = if first == 0xf0 {
            0x90
        } else {
            0x80
        };
        let high: u8 = if first == 0xf4 {
            0x8f
        } else {
            0xbf
        };
        if is_within(s, p + 1, low, high) && is_within(s, p + 2, 0x80, 0xbf) && is_within(
            s,
            p + 3,
            0x80,
            0xbf,
        ) {
            return 4;
        }
    }
    0
}

fn stands_at(s: &[u8], p: usize, text: &[u8]) -> (r: bool)
    ensures
        r == spells(s@, p as int, text@),
{
    if p >= s.len() || s.len() - p <= text.len() {
        return false;
    }
    let mut i: usize = 0;
    while i < text.len()
        invariant
            i <= text@.len(),
            p + text@.len() < s@.len() <= usize::MAX,
            forall|j: int| 0 <= j < i ==> #[trigger] text@[j] == s@[p + j],
        decreases text@.len() - i,
    {
        if s[p + i] != text[i] {
            assert(s@.subrange(p as int, p + text@.len())[i as int] != text@[i as int]);
            return false;
        }
        i = i + 1;
    }
    assert(s@.subrange(p as int, p + text@.len()) =~= text@);
    s[p + text.len()] == 0
}

fn can_name_property(t: &[u8], p: usize, length: u32) -> (r: bool)
    ensures
        r == names_property(t@, p as int, length as int),
{
    if find_text_end(t, p).is_none() || t[p] == 47 {
        return false;
    }
    if length >= 4 {
        return true;
    }
    let address: [u8; 14] = [35, 97, 100, 100, 114, 101, 115, 115, 45, 99, 101, 108, 108, 115];
    let size: [u8; 11] = [35, 115, 105, 122, 101, 45, 99, 101, 108, 108, 115];
    assert(address@ =~= address_cells());
    assert(size@ =~= size_cells());
    !stands_at(t, p, &address) && !stands_at(t, p, &size)
}

fn find_properties_end(s: &[u8], t: &[u8], p: usize) -> (r: Option<usize>)
    requires
        s@.len() <= u32::MAX,
        t@.len() <= u32::MAX,
    ensures
        match r {
            None => properties_end(s@, t@, p as int) is None,
            Some(q) => properties_end(s@, t@, p as int) == Some(q as int) && p <= q && q + 4
                <= s@.len(),
        },
{
    let mut q: usize = p;
    while q <= s.len() && s.len() - q >= 4
        invariant
            p <= q,
            s@.len() <= u32::MAX,
            t@.len() <= u32::MAX,
            properties_end(s@, t@, p as int) == properties_end(s@, t@, q as int),
        decreases s@.len() - q,
    {
        if number(s, q) != 3 {
            return Some(q);
        }
        if s.len() - q < 12 {
            return None;
        }
        let length: u32 = number(s, q + 4);
        let name: u32 = number(s, q + 8);
        let next: u64 = q as u64 + 12 + (length as u64 + 3) / 4 * 4;
        if next > s.len() as u64 {
            return None;
        }
        if !can_name_property(t, name as usize, length) {
            return None;
        }
        q = next as usize;
    }
    None
}

fn find_node_end(s: &[u8], t: &[u8], p: usize, depth: u32) -> (r: Option<usize>)
    requires
        s@.len() <= u32::MAX,
        t@.len() <= u32::MAX,
        depth <= 64,
    ensures
        match r {
            None => node_end(s@, t@, p as int, depth as int) is None,
            Some(q) => node_end(s@, t@, p as int, depth as int) == Some(q as int) && p < q
                <= s@.len(),
        },
    decreases 64 - depth,
{
    if p > s.len() || s.len() - p < 4 || number(s, p) != 1 || depth >= 64 {
        return None;
    }
    let q: usize = match find_text_end(s, p + 4) {
        None => {
            return None;
        },
        Some(q) => q,
    };
    let body: u64 = p as u64 + 4 + (q as u64 + 1 - (p as u64 + 4) + 3) / 4 * 4;
    assert(body == p + 4 + round4(q + 1 - (p + 4)));
    if body > s.len() as u64 {
        return None;
    }
    let mut c: usize = match find_properties_end(s, t, body as usize) {
        None => {
            return None;
        },
        Some(c) => c,
    };
    let ghost first = c as int;
    let ghost whole = children_end(s@, t@, first, depth + 1);
    while c <= s.len() && s.len() - c >= 4 && number(s, c) == 1
        invariant
            s@.len() <= u32::MAX,
            t@.len() <= u32::MAX,
            depth < 64,
            p < c <= s@.len(),
            whole == children_end(s@, t@, first, depth + 1),
            children_end(s@, t@, c as int, depth + 1) == whole,
            node_end(s@, t@, p as int, depth as int) == match whole {
                None => None,
                Some(e) => closed_at(s@, fillers_end(s@, e)),
            },
        decreases s@.len() - c,
    {
        match find_node_end(s, t, c, depth + 1) {
            None => {
                return None;
            },
            Some(e) => {
                c = e;
            },
        }
    }
    let ghost end = c as int;
    while c <= s.len() && s.len() - c >= 4 && number(s, c) == 4
        invariant
            p < c <= s@.len(),
            fillers_end(s@, c as int) == fillers_end(s@, end),
        decreases s@.len() - c,
    {
        c = c + 4;
    }
    if c > s.len() || s.len() - c < 4 || number(s, c) != 2 {
        return None;
    }
    Some(c + 4)
}

/// Whether a blob is well formed.
pub fn check(blob: &[u8]) -> (r: bool)
    ensures
        r == well_formed(blob@),
{
    if blob.len() < 40 || number(blob, 0) != 0xd00dfeed {
        return false;
    }
    let total: u32 = number(blob, 4);
    let structure_offset: u32 = number(blob, 8);
    let names_offset: u32 = number(blob, 12);
    let names_size: u32 = number(blob, 32);
    let structure_size: u32 = number(blob, 36);
    let structure_end: u64 = structure_offset as u64 + structure_size as u64;
    let names_end: u64 = names_offset as u64 + names_size as u64;
    if total as u64 > blob.len() as u64 || structure_end > blob.len() as u64 || names_end
        > blob.len() as u64 {
        return false;
    }
    let s = slice_subrange(blob, structure_offset as usize, structure_end as usize);
    let t = slice_subrange(blob, names_offset as usize, names_end as usize);
    match find_node_end(s, t, 0, 1) {
        None => false,
        Some(e) => s.len() - e >= 4 && number(s, e) == 9,
    }
}

/// All nodes of a blob, a node before its children.
pub uninterp spec fn tree_nodes(blob: Seq<u8>) -> Seq<NodeView>;

/// The node at a path.
pub uninterp spec fn tree_node(blob: Seq<u8>, path: Seq<char>) -> Option<NodeView>;

/// The children of the node at a path, in order.
pub uninterp spec fn tree_children(blob: Seq<u8>, path: Seq<char>) -> Seq<NodeView>;

/// Calls `fdt::Fdt::all_nodes`, and takes over each node: its name, the
/// strings of `compatible`, the first entry of `reg`, and all properties with their text by
/// `as_str`. The result depends on the blob alone. On a well-formed blob none of
/// these readers stops the program.
#[verifier::external_body]
pub(crate) fn read_nodes(blob: &[u8]) -> (r: Vec<Node>)
    requires
        well_formed(blob@),
    ensures
        views(r@) == tree_nodes(blob@),
{
    let nodes = fdt::Fdt::new(blob).ok();
    let nodes = nodes.iter().flat_map(|tree| tree.all_nodes());
    nodes.map(|node| Node {
        name: node.name.into(),
        compatible: node.compatible().map(|list| list.all().map(String::from).collect()),
        region: node.reg().and_then(|mut regions| regions.next())
            .map(|region| (region.starting_address as u64, region.size)),
        properties: node.properties().map(|property| Property {
            name: property.name.into(),
            value: property.value.into(),
            text: property.as_str().map(String::from),
        }).collect(),
    }).collect()
}

/// Calls `fdt::Fdt::find_node`, and takes over the node as above. The result
/// depends on the blob and the path alone. A path that begins with a slash is not
/// the name of an alias in a well-formed blob, so the search ends.
#[verifier::external_body]
pub(crate) fn read_node(blob: &[u8], path: &str) -> (r: Option<Node>)
    requires
        well_formed(blob@),
        path@.len() > 0,
        path@[0] == '/',
    ensures
        r is None <==> tree_node(blob@, path@) is None,
        r matches Some(node) ==> tree_node(blob@, path@) == Some(node@),
{
    let tree = fdt::Fdt::new(blob).ok()?;
    tree.find_node(path).map(|node| Node {
        name: node.name.into(),
        compatible: node.compatible().map(|list| list.all().map(String::from).collect()),
        region: node.reg().and_then(|mut regions| regions.next())
            .map(|region| (region.starting_address as u64, region.size)),
        properties: node.properties().map(|property| Property {
            name: property.name.into(),
            value: property.value.into(),
            text: property.as_str().map(String::from),
        }).collect(),
    })
}

/// Calls `fdt::node::FdtNode::children` on the node at a path, and takes over each
/// child as above; without such a node there are none. The result depends on the
/// blob and the path alone.
#[verifier::external_body]
pub(crate) fn read_children(blob: &[u8], path: &str) -> (r: Vec<Node>)
    requires
        well_formed(blob@),
        path@.len() > 0,
        path@[0] == '/',
    ensures
        views(r@) == tree_children(blob@, path@),
{
    let tree = fdt::Fdt::new(blob).ok();
    tree.iter().flat_map(|tree| tree.find_node(path)).flat_map(|node| node.children()).map(|node| Node {
        name: node.name.into(),
        compatible: node.compatible().map(|list| list.all().map(String::from).collect()),
        region: node.reg().and_then(|mut regions| regions.next())
            .map(|region| (region.starting_address as u64, region.size)),
        properties: node.properties().map(|property| Property {
            name: property.name.into(),
            value: property.value.into(),
            text: property.as_str().map(String::from),
        }).collect(),
    }).collect()
}

/// The first property of a name.
pub open spec fn property_of(properties: Seq<PropertyView>, name: Seq<char>) -> Option<PropertyView>
    decreases properties.len(),
{
    if properties.len() == 0 {
        None
    } else if properties[0].name == name {
        Some(properties[0])
    } else {
        property_of(properties.skip(1), name)
    }
}

impl NodeView {
    pub open spec fn property(self, name: Seq<char>) -> Option<PropertyView> {
        property_of(self.properties, name)
    }

    /// The number at an index of a property.
    pub open spec fn cell(self, name: Seq<char>, index: int) -> Option<u32> {
        match self.property(name) {
            None => None,
            Some(p) => if 4 * index + 4 <= p.value.len() {
                Some(be32(p.value, 4 * index) as u32)
            } else {
                None
            },
        }
    }

    pub open spec fn text(self, name: Seq<char>) -> Option<Seq<char>> {
        match self.property(name) {
            None => None,
            Some(p) => p.text,
        }
    }

    /// The number by which other nodes refer to this one.
    pub open spec fn phandle(self) -> Option<u32> {
        match self.cell("phandle"@, 0) {
            None => self.cell("linux,phandle"@, 0),
            found => found,
        }
    }

    /// Nodes are enabled unless their status says otherwise.
    pub open spec fn enabled(self) -> bool {
        match self.text("status"@) {
            None => true,
            Some(status) => status == "okay"@ || status == "ok"@,
        }
    }

    pub open spec fn is_compatible(self, with: Seq<char>) -> bool {
        match self.compatible {
            None => false,
            Some(list) => list.contains(with),
        }
    }
}

pub fn is(text: &String, literal: &str) -> (r: bool)
    ensures
        r == (text@ == literal@),
{
    *text == literal.to_owned()
}

/// Four bytes of a value as a number.
pub fn cell_of(value: &Vec<u8>, index: usize) -> (r: Option<u32>)
    requires
        index < 0x3fff_ffff,
    ensures
        r == if 4 * index + 4 <= value@.len() {
            Some(be32(value@, 4 * index) as u32)
        } else {
            None
        },
{
    if 4 * index + 4 <= value.len() {
        Some(number(value.as_slice(), 4 * index))
    } else {
        None
    }
}

impl Node {
    pub fn property(&self, name: &str) -> (r: Option<&Property>)
        ensures
            r is None <==> self@.property(name@) is None,
            r matches Some(p) ==> self@.property(name@) == Some(p@),
    {
        let mut i: usize = 0;
        assert(self@.properties.skip(0) =~= self@.properties);
        while i < self.properties.len()
            invariant
                i <= self.properties@.len(),
                property_of(self@.properties.skip(i as int), name@) == self@.property(name@),
            decreases self.properties@.len() - i,
        {
            let ghost rest = self@.properties.skip(i as int);
            assert(rest[0] == self.properties@[i as int]@);
            if is(&self.properties[i].name, name) {
                return Some(&self.properties[i]);
            }
            assert(rest.skip(1) =~= self@.properties.skip(i + 1));
            i = i + 1;
        }
        assert(self@.properties.skip(i as int).len() == 0);
        None
    }

    pub fn cell(&self, name: &str, index: usize) -> (r: Option<u32>)
        requires
            index < 0x3fff_ffff,
        ensures
            r == self@.cell(name@, index as int),
    {
        match self.property(name) {
            None => None,
            Some(p) => cell_of(&p.value, index),
        }
    }

    pub fn phandle(&self) -> (r: Option<u32>)
        ensures
            r == self@.phandle(),
    {
        match self.cell("phandle", 0) {
            None => self.cell("linux,phandle", 0),
            Some(value) => Some(value),
        }
    }

    /// Whether a property is some text.
    pub fn text_is(&self, name: &str, literal: &str) -> (r: bool)
        ensures
            r == (self@.text(name@) == Some(literal@)),
    {
        match self.property(name) {
            None => false,
            Some(p) => match &p.text {
                None => false,
                Some(text) => is(text, literal),
            },
        }
    }

    pub fn enabled(&self) -> (r: bool)
        ensures
            r == self@.enabled(),
    {
        match self.property("status") {
            None => true,
            Some(p) => match &p.text {
                None => true,
                Some(text) => is(text, "okay") || is(text, "ok"),
            },
        }
    }

    pub fn is_compatible(&self, with: &str) -> (r: bool)
        ensures
            r == self@.is_compatible(with@),
    {
        match &self.compatible {
            None => false,
            Some(list) => {
                let mut i: usize = 0;
                while i < list.len()
                    invariant
                        i <= list@.len(),
                        self.compatible == Some(*list),
                        forall|j: int| 0 <= j < i ==> #[trigger] strings(list@)[j] != with@,
                    decreases list@.len() - i,
                {
                    if is(&list[i], with) {
                        assert(strings(list@)[i as int] == with@);
                        return true;
                    }
                    i = i + 1;
                }
                false
            },
        }
    }
}

/// The first node that a rule picks.
pub open spec fn first_of(nodes: Seq<NodeView>, rule: spec_fn(NodeView) -> bool) -> Option<NodeView>
    decreases nodes.len(),
{
    if nodes.len() == 0 {
        None
    } else if rule(nodes[0]) {
        Some(nodes[0])
    } else {
        first_of(nodes.skip(1), rule)
    }
}

/// One step of a search.
pub proof fn lemma_search(nodes: Seq<NodeView>, i: int, rule: spec_fn(NodeView) -> bool)
    requires
        0 <= i <= nodes.len(),
    ensures
        i == 0 ==> nodes.skip(i) == nodes,
        i == nodes.len() ==> first_of(nodes.skip(i), rule) is None,
        i < nodes.len() && rule(nodes[i]) ==> first_of(nodes.skip(i), rule) == Some(nodes[i]),
        i < nodes.len() && !rule(nodes[i]) ==> first_of(nodes.skip(i), rule) == first_of(
            nodes.skip(i + 1),
            rule,
        ),
{
    if i == 0 {
        assert(nodes.skip(0) =~= nodes);
    }
    if i < nodes.len() {
        assert(nodes.skip(i)[0] == nodes[i]);
        assert(nodes.skip(i).skip(1) =~= nodes.skip(i + 1));
    }
}

/// The first enabled node that other nodes refer to by a number.
pub open spec fn referred(nodes: Seq<NodeView>, phandle: Option<u32>) -> Option<NodeView> {
    first_of(nodes, |n: NodeView| n.enabled() && n.phandle() == phandle)
}

pub fn find_referred(nodes: &Vec<Node>, phandle: Option<u32>) -> (r: Option<&Node>)
    ensures
        r is None <==> referred(views(nodes@), phandle) is None,
        r matches Some(node) ==> referred(views(nodes@), phandle) == Some(node@),
{
    let ghost all = views(nodes@);
    let ghost rule = |n: NodeView| n.enabled() && n.phandle() == phandle;
    let mut i: usize = 0;
    proof {
        lemma_search(all, 0, rule);
    }
    while i < nodes.len()
        invariant
            i <= nodes@.len(),
            all == views(nodes@),
            rule == (|n: NodeView| n.enabled() && n.phandle() == phandle),
            first_of(all.skip(i as int), rule) == first_of(all, rule),
        decreases nodes@.len() - i,
    {
        proof {
            lemma_search(all, i as int, rule);
        }
        if nodes[i].enabled() {
            let own: Option<u32> = nodes[i].phandle();
            if own == phandle {
                return Some(&nodes[i]);
            }
        }
        i = i + 1;
    }
    proof {
        lemma_search(all, i as int, rule);
    }
    None
}

/// The first node that is compatible, and enabled where that is asked for.
pub open spec fn matching(nodes: Seq<NodeView>, with: Seq<char>, enabled: bool) -> Option<NodeView> {
    first_of(nodes, |n: NodeView| (enabled ==> n.enabled()) && n.is_compatible(with))
}

pub fn find_matching<'a>(nodes: &'a Vec<Node>, with: &str, enabled: bool) -> (r: Option<&'a Node>)
    ensures
        r is None <==> matching(views(nodes@), with@, enabled) is None,
        r matches Some(node) ==> matching(views(nodes@), with@, enabled) == Some(node@),
{
    let ghost all = views(nodes@);
    let ghost rule = |n: NodeView| (enabled ==> n.enabled()) && n.is_compatible(with@);
    let mut i: usize = 0;
    proof {
        lemma_search(all, 0, rule);
    }
    while i < nodes.len()
        invariant
            i <= nodes@.len(),
            all == views(nodes@),
            rule == (|n: NodeView| (enabled ==> n.enabled()) && n.is_compatible(with@)),
            first_of(all.skip(i as int), rule) == first_of(all, rule),
        decreases nodes@.len() - i,
    {
        proof {
            lemma_search(all, i as int, rule);
        }
        if (!enabled || nodes[i].enabled()) && nodes[i].is_compatible(with) {
            return Some(&nodes[i]);
        }
        i = i + 1;
    }
    proof {
        lemma_search(all, i as int, rule);
    }
    None
}

/// A region that starts where it must, and is large enough.
pub open spec fn covers(region: Option<(u64, Option<usize>)>, start: u64, size: u64) -> bool {
    match region {
        None => false,
        Some(found) => found.0 == start && match found.1 {
            None => size == 0,
            Some(length) => length >= size,
        },
    }
}

pub fn region_covers(region: (u64, Option<usize>), start: u64, size: u64) -> (r: bool)
    ensures
        r == covers(Some(region), start, size),
{
    let length: u64 = match region.1 {
        None => 0,
        Some(length) => length as u64,
    };
    region.0 == start && length >= size
}

/// Where the fuses are.
pub const FUSE_BASE: u64 = 0x7000_f800;

pub const FUSE_SIZE: u64 = 0x400;

/// What is wrong with the description of the fuses, in the words of who asks.
pub open spec fn fuse_error(
    nodes: Seq<NodeView>,
    enabled: bool,
    missing: &'static str,
    no_registers: &'static str,
    unsupported: &'static str,
) -> Option<&'static str> {
    match matching(nodes, "nvidia,tegra210-efuse"@, enabled) {
        None => Some(missing),
        Some(node) => if node.region is None {
            Some(no_registers)
        } else if !covers(node.region, FUSE_BASE, FUSE_SIZE) {
            Some(unsupported)
        } else {
            None
        },
    }
}

pub fn check_fuses(
    nodes: &Vec<Node>,
    enabled: bool,
    missing: &'static str,
    no_registers: &'static str,
    unsupported: &'static str,
) -> (r: Result<(), &'static str>)
    ensures
        match r {
            Ok(_) => fuse_error(views(nodes@), enabled, missing, no_registers, unsupported) is None,
            Err(e) => fuse_error(views(nodes@), enabled, missing, no_registers, unsupported)
                == Some(e),
        },
{
    match find_matching(nodes, "nvidia,tegra210-efuse", enabled) {
        None => Err(missing),
        Some(node) => match node.region {
            None => Err(no_registers),
            Some(region) => {
                if region_covers(region, FUSE_BASE, FUSE_SIZE) {
                    Ok(())
                } else {
                    Err(unsupported)
                }
            },
        },
    }
}

/// A cell is four bytes, the highest first, and is there if all of them are.
pub proof fn cells_are_read_from_the_highest_byte(node: NodeView, name: Seq<char>, index: int)
    requires
        0 <= index,
    ensures
        node.property(name) is None ==> node.cell(name, index) is None,
        node.property(name) matches Some(p) ==> {
            &&& node.cell(name, index) is Some <==> 4 * index + 4 <= p.value.len()
            &&& node.cell(name, index) matches Some(v) ==> v == 0x100_0000 * p.value[4 * index]
                + 0x1_0000 * p.value[4 * index + 1] + 0x100 * p.value[4 * index + 2] + p.value[4
                * index + 3]
        },
{
}

/// The first node that a rule holds for is found, and none where it holds for none.
pub proof fn first_nodes_are_found(nodes: Seq<NodeView>, rule: spec_fn(NodeView) -> bool)
    ensures
        first_of(nodes, rule) is None <==> forall|i: int|
            0 <= i < nodes.len() ==> !rule(#[trigger] nodes[i]),
        first_of(nodes, rule) matches Some(n) ==> rule(n) && exists|i: int|
            {
                &&& 0 <= i < nodes.len()
                &&& #[trigger] nodes[i] == n
                &&& forall|j: int| 0 <= j < i ==> !rule(#[trigger] nodes[j])
            },
    decreases nodes.len(),
{
    if nodes.len() > 0 && !rule(nodes[0]) {
        let rest = nodes.skip(1);
        first_nodes_are_found(rest, rule);
        match first_of(rest, rule) {
            None => {
                assert forall|i: int| 0 <= i < nodes.len() implies !rule(#[trigger] nodes[i]) by {
                    if i > 0 {
                        assert(rest[i - 1] == nodes[i]);
                    }
                }
            },
            Some(n) => {
                let i = choose|i: int|
                    {
                        &&& 0 <= i < rest.len()
                        &&& #[trigger] rest[i] == n
                        &&& forall|j: int| 0 <= j < i ==> !rule(#[trigger] rest[j])
                    };
                assert(nodes[i + 1] == n);
                assert forall|j: int| 0 <= j < i + 1 implies !rule(#[trigger] nodes[j]) by {
                    if j > 0 {
                        assert(rest[j - 1] == nodes[j]);
                    }
                }
            },
        }
    } else if nodes.len() > 0 {
        assert(nodes[0] == nodes[0]);
    }
}

/// A node is used unless its status says otherwise, and its number is its own or the older
/// one.
pub proof fn nodes_are_used_unless_disabled(node: NodeView)
    ensures
        node.text("status"@) is None ==> node.enabled(),
        node.text("status"@) matches Some(s) ==> (node.enabled() <==> s == "okay"@ || s == "ok"@),
        node.cell("phandle"@, 0) is Some ==> node.phandle() == node.cell("phandle"@, 0),
        node.cell("phandle"@, 0) is None ==> node.phandle() == node.cell("linux,phandle"@, 0),
{
}

/// A region covers another if it starts with it and is at least as long.
pub proof fn regions_cover_from_their_start(region: Option<(u64, Option<usize>)>, start: u64, size: u64)
    requires
        size > 0,
    ensures
        covers(region, start, size) <==> (region matches Some((s, Some(length))) && s == start
            && length >= size),
{
}

/// A byte goes on with a character.
pub open spec fn continues(s: Seq<u8>, p: int) -> bool {
    p < s.len() && s[p] as int / 64 == 2
}

/// A character takes one byte below 0x80, and otherwise as many as its first byte says, if
/// the others go on with it, it could not be told in fewer, and it is one: no half of a pair,
/// and none beyond the last.
pub proof fn characters_take_their_bytes(s: Seq<u8>, p: int)
    requires
        0 <= p < s.len(),
    ensures
        ({
            let a = s[p] as int;
            let b = s[p + 1] as int % 64;
            let c = s[p + 2] as int % 64;
            let d = s[p + 3] as int % 64;
            let two = a % 32 * 64 + b;
            let three = a % 16 * 4096 + b * 64 + c;
            let four = a % 8 * 0x4_0000 + b * 4096 + c * 64 + d;
            &&& char_length(s, p) == 1 <==> a < 0x80
            &&& char_length(s, p) == 2 <==> a / 32 == 6 && continues(s, p + 1) && two >= 0x80
            &&& char_length(s, p) == 3 <==> a / 16 == 14 && continues(s, p + 1) && continues(
                s,
                p + 2,
            ) && three >= 0x800 && !(0xd800 <= three <= 0xdfff)
            &&& char_length(s, p) == 4 <==> a / 8 == 30 && continues(s, p + 1) && continues(s, p + 2)
                && continues(s, p + 3) && 0x1_0000 <= four <= 0x10_ffff
            &&& 0 <= char_length(s, p) <= 4
        }),
{
}

} // verus!
