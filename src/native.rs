use vstd::prelude::*;

verus! {

/// An index into the host's table of live native nodes.
pub type NodeHandle = usize;

/// What sort of element a native element node is, as far as the edit rules care.
#[derive(Clone, Copy, Debug, PartialEq, Eq, Structural)]
pub enum ElementRole {
    /// A form input, whose value and checked state live in properties.
    Input,
    /// An option of a select list, whose selected state lives in a property.
    HtmlOption,
    /// An element of the SVG namespace.
    Svg,
    Plain,
}

/// What sort of native node a handle stands for.
#[derive(Clone, Copy, Debug, PartialEq, Eq, Structural)]
pub enum NodeKind {
    Element(ElementRole),
    Text,
    /// The empty comment node kept between two text siblings.
    Marker,
}

/// One instruction of an edit stream.
#[derive(Debug, PartialEq, Eq)]
pub enum DomEdit {
    PushRoot { id: u64 },
    PopRoot,
    AppendChildren { many: u32 },
    ReplaceWith { many: u32 },
    Remove,
    RemoveAllChildren,
    CreateTextNode { text: String, id: u64 },
    CreateElement { tag: String, id: u64 },
    CreateElementNs { tag: String, id: u64, ns: String },
    CreatePlaceholder { id: u64 },
    NewEventListener { event_name: String, scope: u64, mounted_node_id: u64 },
    RemoveEventListener { event: String },
    SetText { text: String },
    SetAttribute { field: String, value: String, ns: Option<String> },
    RemoveAttribute { name: String },
}

/// One mutation of the native tree, for the host to perform in order.
#[derive(Debug, PartialEq, Eq)]
pub enum NativeOp {
    CreateElement { node: NodeHandle, tag: String, ns: Option<String> },
    CreateText { node: NodeHandle, text: String },
    /// Creates an empty comment node.
    CreateMarker { node: NodeHandle },
    AppendChild { parent: NodeHandle, child: NodeHandle },
    /// Puts `new_nodes`, in order, where `old` stands, and detaches `old`.
    ReplaceWith { old: NodeHandle, new_nodes: Vec<NodeHandle> },
    Detach { node: NodeHandle },
    RemoveAllChildren { node: NodeHandle },
    SetText { node: NodeHandle, text: String },
    SetClassName { node: NodeHandle, value: String },
    /// Sets the base value of an SVG element's animated class name.
    SetSvgClass { node: NodeHandle, value: String },
    SetAttribute { node: NodeHandle, name: String, value: String },
    RemoveAttribute { node: NodeHandle, name: String },
    /// Sets an input's live value to the empty string.
    ResetValue { node: NodeHandle },
    /// Clears an input's live checked state.
    ResetChecked { node: NodeHandle },
    /// Clears an option's live selected state.
    ResetSelected { node: NodeHandle },
    /// Installs the one delegated listener of an event category at the root.
    InstallListener { event: String },
    /// Removes the delegated listener of an event category from the root.
    UninstallListener { event: String },
}

/// Why an edit stream could not be applied.
#[derive(Clone, Copy, Debug, PartialEq, Eq, Structural)]
pub enum EditError {
    /// An instruction named an id that has no registry entry.
    UnknownNodeId(u64),
    /// An instruction needed more nodes than the builder stack holds.
    StackUnderflow,
    /// A listener was attached to a node that is not an element.
    NotAnElement(NodeHandle),
    /// A listener count would no longer fit its counter.
    ListenerCountOverflow,
}

} // verus!
