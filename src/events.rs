use vstd::prelude::*;

use crate::native::EditError;
use crate::text::{same_text, decimal, parse_u64, parse_u64_spec, u64_decimal};

verus! {

/// The name of the attribute that records, on a node, which component and node a
/// delegated event of `category` belongs to.
pub open spec fn reservation_name(category: Seq<char>) -> Seq<char> {
    "dioxus-event-"@ + category
}

/// The value of a reservation attribute: the component id, a dot, the node id.
pub open spec fn reservation_value(scope: u64, node: u64) -> Seq<char> {
    decimal(scope as nat) + seq!['.'] + decimal(node as nat)
}

/// The event category that a listener name stands for: the name without a leading `on`.
pub open spec fn category_of(name: Seq<char>) -> Seq<char> {
    if name.len() >= 2 && name[0] == 'o' && name[1] == 'n' {
        name.subrange(2, name.len() as int)
    } else {
        name
    }
}

pub fn event_category(name: &str) -> (r: String)
    ensures
        r@ == category_of(name@),
{
    let n = name.unicode_len();
    if n >= 2 && name.get_char(0) == 'o' && name.get_char(1) == 'n' {
        name.substring_char(2, n).to_string()
    } else {
        name.to_string()
    }
}

pub fn reservation_attribute_name(category: &str) -> (r: String)
    ensures
        r@ == reservation_name(category@),
{
    let prefix = String::from_str("dioxus-event-");
    proof {
        reveal_strlit("dioxus-event-");
    }
    prefix.concat(category)
}

pub fn encode_reservation(scope: u64, node: u64) -> (r: String)
    ensures
        r@ == reservation_value(scope, node),
{
    let s = u64_decimal(scope);
    let s = s.concat(".");
    let n = u64_decimal(node);
    proof {
        reveal_strlit(".");
    }
    s.concat(n.as_str())
}

/// The index of the first `.` in `s` at or after `from`, or the length of `s`.
pub open spec fn next_dot(s: Seq<char>, from: int) -> int
    decreases s.len() - from,
{
    if from >= s.len() {
        s.len() as int
    } else if s[from] == '.' {
        from
    } else {
        next_dot(s, from + 1)
    }
}

/// What a reservation attribute value decodes to: the first two dot-separated fields,
/// each an unsigned decimal; anything after a second dot is ignored.
pub open spec fn decode_spec(s: Seq<char>) -> Option<(u64, u64)> {
    let p = next_dot(s, 0);
    let q = next_dot(s, p + 1);
    if p >= s.len() {
        None
    } else {
        match (parse_u64_spec(s.subrange(0, p)), parse_u64_spec(s.subrange(p + 1, q))) {
            (Some(a), Some(b)) => Some((a, b)),
            _ => None,
        }
    }
}

fn find_dot(s: &str, from: usize) -> (r: usize)
    requires
        from <= s@.len(),
    ensures
        r == next_dot(s@, from as int),
        from <= r <= s@.len(),
{
    let n = s.unicode_len();
    let mut i = from;
    while i < n
        invariant
            n == s@.len(),
            from <= i <= n,
            next_dot(s@, from as int) == next_dot(s@, i as int),
        decreases n - i,
    {
        if s.get_char(i) == '.' {
            return i;
        }
        i = i + 1;
    }
    i
}

/// Splits a reservation attribute value into its component id and node id.
pub fn decode_reservation(value: &str) -> (r: Result<(u64, u64), TriggerError>)
    ensures
        decode_spec(value@) is Some ==> r == Ok::<(u64, u64), TriggerError>(decode_spec(value@)->0),
        decode_spec(value@) is None ==> r == Err::<(u64, u64), TriggerError>(
            TriggerError::MalformedTriggerAttribute,
        ),
{
    let n = value.unicode_len();
    let p = find_dot(value, 0);
    if p >= n {
        return Err(TriggerError::MalformedTriggerAttribute);
    }
    let q = find_dot(value, p + 1);
    let first = parse_u64(value.substring_char(0, p));
    let second = parse_u64(value.substring_char(p + 1, q));
    match (first, second) {
        (Some(a), Some(b)) => Ok((a, b)),
        _ => Err(TriggerError::MalformedTriggerAttribute),
    }
}

/// The number of logical listeners of one event category.
pub struct ListenerEntry {
    pub event: String,
    pub count: u64,
}

/// The delegated listeners: for each event category that has one, the number of
/// logical listeners that share its single native listener.
pub struct ListenerTable {
    entries: Vec<ListenerEntry>,
    counts: Ghost<Map<Seq<char>, nat>>,
}

/// The counts after one more listener of `event` is registered.
pub open spec fn counts_after_add(m: Map<Seq<char>, nat>, event: Seq<char>) -> Map<Seq<char>, nat> {
    m.insert(event, if m.contains_key(event) { m[event] + 1 } else { 1 })
}

/// The counts after one listener of `event` is removed; the category leaves the table
/// when its last listener goes.
pub open spec fn counts_after_remove(m: Map<Seq<char>, nat>, event: Seq<char>) -> Map<
    Seq<char>,
    nat,
> {
    if !m.contains_key(event) {
        m
    } else if m[event] <= 1 {
        m.remove(event)
    } else {
        m.insert(event, (m[event] - 1) as nat)
    }
}

impl View for ListenerTable {
    type V = Map<Seq<char>, nat>;

    closed spec fn view(&self) -> Map<Seq<char>, nat> {
        self.counts@
    }
}

impl ListenerTable {
    pub closed spec fn wf(&self) -> bool {
        &&& forall|i: int|
            0 <= i < self.entries@.len() ==> {
                let e = #[trigger] self.entries@[i];
                &&& self.counts@.contains_key(e.event@)
                &&& self.counts@[e.event@] == e.count
                &&& e.count >= 1
            }
        &&& forall|k: Seq<char>| #[trigger]
            self.counts@.contains_key(k) ==> exists|i: int|
                0 <= i < self.entries@.len() && (#[trigger] self.entries@[i]).event@ == k
        &&& forall|i: int, j: int|
            0 <= i < j < self.entries@.len() ==> (#[trigger] self.entries@[i]).event@
                != (#[trigger] self.entries@[j]).event@
    }

    pub fn new() -> (r: ListenerTable)
        ensures
            r.wf(),
            r@ == Map::<Seq<char>, nat>::empty(),
    {
        ListenerTable { entries: Vec::new(), counts: Ghost(Map::empty()) }
    }

    fn find(&self, event: &str) -> (r: Option<usize>)
        requires
            self.wf(),
        ensures
            r is None ==> !self@.contains_key(event@),
            r is Some ==> r->0 < self.entries@.len() && self.entries@[r->0 as int].event@ == event@,
    {
        let mut i: usize = 0;
        while i < self.entries.len()
            invariant
                self.wf(),
                i <= self.entries@.len(),
                forall|j: int| 0 <= j < i ==> (#[trigger] self.entries@[j]).event@ != event@,
            decreases self.entries@.len() - i,
        {
            if same_text(self.entries[i].event.as_str(), event) {
                return Some(i);
            }
            i = i + 1;
        }
        proof {
            if self@.contains_key(event@) {
                let j = choose|j: int| 0 <= j < self.entries@.len() && (#[trigger] self.entries@[j]).event@ == event@;
                assert(self.entries@[j].event@ != event@);
            }
        }
        None
    }

    /// The number of listeners of `event`; zero when it has none.
    pub fn count(&self, event: &str) -> (r: u64)
        requires
            self.wf(),
        ensures
            self@.contains_key(event@) ==> r == self@[event@],
            !self@.contains_key(event@) ==> r == 0,
    {
        match self.find(event) {
            Some(i) => self.entries[i].count,
            None => 0,
        }
    }

    /// Registers one more listener of `event`. Returns whether it is the first one, so
    /// that the single native listener of the category has to be installed.
    pub fn add(&mut self, event: &str) -> (r: Result<bool, EditError>)
        requires
            old(self).wf(),
        ensures
            final(self).wf(),
            old(self)@.contains_key(event@) && old(self)@[event@] >= u64::MAX ==> r == Err::<
                bool,
                EditError,
            >(EditError::ListenerCountOverflow) && final(self)@ == old(self)@,
            !(old(self)@.contains_key(event@) && old(self)@[event@] >= u64::MAX) ==> r == Ok::<
                bool,
                EditError,
            >(!old(self)@.contains_key(event@)) && final(self)@ == counts_after_add(
                old(self)@,
                event@,
            ),
    {
        match self.find(event) {
            Some(i) => {
                let c = self.entries[i].count;
                if c == u64::MAX {
                    return Err(EditError::ListenerCountOverflow);
                }
                let ghost m = self.counts@;
                let ghost old_entries = self.entries@;
                let name = self.entries[i].event.clone();
                self.entries.set(i, ListenerEntry { event: name, count: c + 1 });
                self.counts = Ghost(m.insert(event@, (c + 1) as nat));
                assert forall|k: Seq<char>| #[trigger]
                    self.counts@.contains_key(k) implies exists|j: int|
                        0 <= j < self.entries@.len() && (#[trigger] self.entries@[j]).event@ == k by {
                    if k == event@ {
                        assert(self.entries@[i as int].event@ == k);
                    } else {
                        let j = choose|j: int| 0 <= j < old_entries.len() && (#[trigger] old_entries[j]).event@ == k;
                        assert(self.entries@[j].event@ == k);
                    }
                }
                Ok(false)
            },
            None => {
                let ghost m = self.counts@;
                let ghost old_entries = self.entries@;
                self.entries.push(ListenerEntry { event: event.to_string(), count: 1 });
                self.counts = Ghost(m.insert(event@, 1));
                assert forall|k: Seq<char>| #[trigger]
                    self.counts@.contains_key(k) implies exists|j: int|
                        0 <= j < self.entries@.len() && (#[trigger] self.entries@[j]).event@ == k by {
                    if k == event@ {
                        assert(self.entries@[old_entries.len() as int].event@ == k);
                    } else {
                        let j = choose|j: int| 0 <= j < old_entries.len() && (#[trigger] old_entries[j]).event@ == k;
                        assert(self.entries@[j].event@ == k);
                    }
                }
                assert forall|j: int| 0 <= j < old_entries.len() implies (#[trigger] old_entries[j]).event@ != event@ by {
                    assert(m.contains_key(old_entries[j].event@));
                }
                Ok(true)
            },
        }
    }

    /// Removes one listener of `event`. Returns whether it was the last one, so that
    /// the native listener of the category has to be uninstalled.
    pub fn remove(&mut self, event: &str) -> (r: bool)
        requires
            old(self).wf(),
        ensures
            final(self).wf(),
            final(self)@ == counts_after_remove(old(self)@, event@),
            r == (old(self)@.contains_key(event@) && old(self)@[event@] <= 1),
    {
        match self.find(event) {
            Some(i) => {
                let c = self.entries[i].count;
                let ghost m = self.counts@;
                let ghost old_entries = self.entries@;
                if c > 1 {
                    let name = self.entries[i].event.clone();
                    self.entries.set(i, ListenerEntry { event: name, count: c - 1 });
                    self.counts = Ghost(m.insert(event@, (c - 1) as nat));
                    assert forall|k: Seq<char>| #[trigger]
                        self.counts@.contains_key(k) implies exists|j: int|
                            0 <= j < self.entries@.len() && (#[trigger] self.entries@[j]).event@ == k by {
                        if k == event@ {
                            assert(self.entries@[i as int].event@ == k);
                        } else {
                            let j = choose|j: int| 0 <= j < old_entries.len() && (#[trigger] old_entries[j]).event@ == k;
                            assert(self.entries@[j].event@ == k);
                        }
                    }
                    false
                } else {
                    self.entries.remove(i);
                    self.counts = Ghost(m.remove(event@));
                    assert forall|j: int| 0 <= j < self.entries@.len() implies {
                        let e = #[trigger] self.entries@[j];
                        &&& self.counts@.contains_key(e.event@)
                        &&& self.counts@[e.event@] == e.count
                        &&& e.count >= 1
                    } by {
                        if j < i {
                            assert(self.entries@[j] == old_entries[j]);
                        } else {
                            assert(self.entries@[j] == old_entries[j + 1]);
                        }
                    }
                    assert forall|k: Seq<char>| #[trigger]
                        self.counts@.contains_key(k) implies exists|j: int|
                            0 <= j < self.entries@.len() && (#[trigger] self.entries@[j]).event@ == k by {
                        let j = choose|j: int| 0 <= j < old_entries.len() && (#[trigger] old_entries[j]).event@ == k;
                        assert(j != i);
                        if j < i {
                            assert(self.entries@[j] == old_entries[j]);
                        } else {
                            assert(self.entries@[j - 1] == old_entries[j]);
                        }
                    }
                    assert forall|a: int, b: int|
                        0 <= a < b < self.entries@.len() implies (#[trigger] self.entries@[a]).event@
                            != (#[trigger] self.entries@[b]).event@ by {
                        let a0 = if a < i { a } else { a + 1 };
                        let b0 = if b < i { b } else { b + 1 };
                        assert(self.entries@[a] == old_entries[a0]);
                        assert(self.entries@[b] == old_entries[b0]);
                    }
                    true
                }
            },
            None => false,
        }
    }
}

/// Why a dispatched event could not be routed.
#[derive(Clone, Copy, Debug, PartialEq, Eq, Structural)]
pub enum TriggerError {
    /// The origin element has no reservation attribute for the event's category, or
    /// its value does not hold two numeric ids.
    MalformedTriggerAttribute,
}

/// The family of an event type, which decides what payload its trigger carries.
#[derive(Clone, Copy, Debug, PartialEq, Eq, Structural)]
pub enum EventCategory {
    Clipboard,
    Composition,
    Keyboard,
    Focus,
    Form,
    Mouse,
    Pointer,
    Selection,
    Touch,
    Scroll,
    Wheel,
    Media,
    Animation,
    Transition,
    Toggle,
    Other,
}

pub open spec fn names_view(names: Seq<&str>) -> Seq<Seq<char>> {
    names.map_values(|n: &str| n@)
}

/// Whether `t` is one of `names`.
pub fn is_one_of(t: &str, names: &[&str]) -> (r: bool)
    ensures
        r == names_view(names@).contains(t@),
{
    let mut i: usize = 0;
    while i < names.len()
        invariant
            i <= names@.len(),
            forall|j: int| 0 <= j < i ==> (#[trigger] names@[j])@ != t@,
        decreases names@.len() - i,
    {
        if same_text(names[i], t) {
            assert(names_view(names@)[i as int] == t@);
            return true;
        }
        i = i + 1;
    }
    proof {
        if names_view(names@).contains(t@) {
            let j = choose|j: int| 0 <= j < names_view(names@).len() && names_view(names@)[j] == t@;
            assert(names@[j]@ == t@);
        }
    }
    false
}

pub open spec fn mouse_names() -> Seq<Seq<char>> {
    seq![
        "click"@, "contextmenu"@, "doubleclick"@, "drag"@, "dragend"@, "dragenter"@,
        "dragexit"@, "dragleave"@, "dragover"@, "dragstart"@, "drop"@, "mousedown"@,
        "mouseenter"@, "mouseleave"@, "mousemove"@, "mouseout"@, "mouseover"@, "mouseup"@,
    ]
}

pub open spec fn pointer_names() -> Seq<Seq<char>> {
    seq![
        "pointerdown"@, "pointermove"@, "pointerup"@, "pointercancel"@, "gotpointercapture"@,
        "lostpointercapture"@, "pointerenter"@, "pointerleave"@, "pointerover"@, "pointerout"@,
    ]
}

pub open spec fn media_names() -> Seq<Seq<char>> {
    seq![
        "abort"@, "canplay"@, "canplaythrough"@, "durationchange"@, "emptied"@, "encrypted"@,
        "ended"@, "error"@, "loadeddata"@, "loadedmetadata"@, "loadstart"@, "pause"@, "play"@,
        "playing"@, "progress"@, "ratechange"@, "seeked"@, "seeking"@, "stalled"@, "suspend"@,
        "timeupdate"@, "volumechange"@, "waiting"@,
    ]
}

/// The category of an event type.
pub open spec fn category_spec(t: Seq<char>) -> EventCategory {
    if seq!["copy"@, "cut"@, "paste"@].contains(t) {
        EventCategory::Clipboard
    } else if seq!["compositionend"@, "compositionstart"@, "compositionupdate"@].contains(t) {
        EventCategory::Composition
    } else if seq!["keydown"@, "keypress"@, "keyup"@].contains(t) {
        EventCategory::Keyboard
    } else if seq!["focus"@, "blur"@].contains(t) {
        EventCategory::Focus
    } else if seq!["change"@, "input"@, "invalid"@, "reset"@, "submit"@].contains(t) {
        EventCategory::Form
    } else if mouse_names().contains(t) {
        EventCategory::Mouse
    } else if pointer_names().contains(t) {
        EventCategory::Pointer
    } else if seq!["select"@].contains(t) {
        EventCategory::Selection
    } else if seq!["touchcancel"@, "touchend"@, "touchmove"@, "touchstart"@].contains(t) {
        EventCategory::Touch
    } else if seq!["scroll"@].contains(t) {
        EventCategory::Scroll
    } else if seq!["wheel"@].contains(t) {
        EventCategory::Wheel
    } else if media_names().contains(t) {
        EventCategory::Media
    } else if seq!["animationstart"@, "animationend"@, "animationiteration"@].contains(t) {
        EventCategory::Animation
    } else if seq!["transitionend"@].contains(t) {
        EventCategory::Transition
    } else if seq!["toggle"@].contains(t) {
        EventCategory::Toggle
    } else {
        EventCategory::Other
    }
}

/// The category of an event type, as `category_spec` lists them.
pub fn classify_event(event_type: &str) -> (r: EventCategory)
    ensures
        r == category_spec(event_type@),
{
    let g0: [&str; 3] = ["copy", "cut", "paste"];
    assert(names_view(g0@) =~= seq!["copy"@, "cut"@, "paste"@]);
    if is_one_of(event_type, &g0) {
        return EventCategory::Clipboard;
    }
    let g1: [&str; 3] = ["compositionend", "compositionstart", "compositionupdate"];
    assert(names_view(g1@) =~= seq!["compositionend"@, "compositionstart"@, "compositionupdate"@]);
    if is_one_of(event_type, &g1) {
        return EventCategory::Composition;
    }
    let g2: [&str; 3] = ["keydown", "keypress", "keyup"];
    assert(names_view(g2@) =~= seq!["keydown"@, "keypress"@, "keyup"@]);
    if is_one_of(event_type, &g2) {
        return EventCategory::Keyboard;
    }
    let g3: [&str; 2] = ["focus", "blur"];
    assert(names_view(g3@) =~= seq!["focus"@, "blur"@]);
    if is_one_of(event_type, &g3) {
        return EventCategory::Focus;
    }
    let g4: [&str; 5] = ["change", "input", "invalid", "reset", "submit"];
    assert(names_view(g4@) =~= seq!["change"@, "input"@, "invalid"@, "reset"@, "submit"@]);
    if is_one_of(event_type, &g4) {
        return EventCategory::Form;
    }
    let g5: [&str; 18] = ["click", "contextmenu", "doubleclick", "drag", "dragend", "dragenter", "dragexit", "dragleave", "dragover", "dragstart", "drop", "mousedown", "mouseenter", "mouseleave", "mousemove", "mouseout", "mouseover", "mouseup"];
    assert(names_view(g5@) =~= mouse_names());
    if is_one_of(event_type, &g5) {
        return EventCategory::Mouse;
    }
    let g6: [&str; 10] = ["pointerdown", "pointermove", "pointerup", "pointercancel", "gotpointercapture", "lostpointercapture", "pointerenter", "pointerleave", "pointerover", "pointerout"];
    assert(names_view(g6@) =~= pointer_names());
    if is_one_of(event_type, &g6) {
        return EventCategory::Pointer;
    }
    let g7: [&str; 1] = ["select"];
    assert(names_view(g7@) =~= seq!["select"@]);
    if is_one_of(event_type, &g7) {
        return EventCategory::Selection;
    }
    let g8: [&str; 4] = ["touchcancel", "touchend", "touchmove", "touchstart"];
    assert(names_view(g8@) =~= seq!["touchcancel"@, "touchend"@, "touchmove"@, "touchstart"@]);
    if is_one_of(event_type, &g8) {
        return EventCategory::Touch;
    }
    let g9: [&str; 1] = ["scroll"];
    assert(names_view(g9@) =~= seq!["scroll"@]);
    if is_one_of(event_type, &g9) {
        return EventCategory::Scroll;
    }
    let g10: [&str; 1] = ["wheel"];
    assert(names_view(g10@) =~= seq!["wheel"@]);
    if is_one_of(event_type, &g10) {
        return EventCategory::Wheel;
    }
    let g11: [&str; 23] = ["abort", "canplay", "canplaythrough", "durationchange", "emptied", "encrypted", "ended", "error", "loadeddata", "loadedmetadata", "loadstart", "pause", "play", "playing", "progress", "ratechange", "seeked", "seeking", "stalled", "suspend", "timeupdate", "volumechange", "waiting"];
    assert(names_view(g11@) =~= media_names());
    if is_one_of(event_type, &g11) {
        return EventCategory::Media;
    }
    let g12: [&str; 3] = ["animationstart", "animationend", "animationiteration"];
    assert(names_view(g12@) =~= seq!["animationstart"@, "animationend"@, "animationiteration"@]);
    if is_one_of(event_type, &g12) {
        return EventCategory::Animation;
    }
    let g13: [&str; 1] = ["transitionend"];
    assert(names_view(g13@) =~= seq!["transitionend"@]);
    if is_one_of(event_type, &g13) {
        return EventCategory::Transition;
    }
    let g14: [&str; 1] = ["toggle"];
    assert(names_view(g14@) =~= seq!["toggle"@]);
    if is_one_of(event_type, &g14) {
        return EventCategory::Toggle;
    }
    EventCategory::Other
}

/// What a pointer or mouse event carries: coordinates, buttons and modifier keys.
#[derive(Clone, Copy, Debug, PartialEq, Eq, Structural)]
pub struct MouseData {
    pub alt_key: bool,
    pub button: i16,
    pub buttons: u16,
    pub client_x: i32,
    pub client_y: i32,
    pub ctrl_key: bool,
    pub meta_key: bool,
    pub page_x: i32,
    pub page_y: i32,
    pub screen_x: i32,
    pub screen_y: i32,
    pub shift_key: bool,
}

/// The normalized payload of a dispatched event.
#[derive(Debug, PartialEq, Eq)]
pub enum VirtualEvent {
    MouseEvent(MouseData),
    /// An input or change event, with the current text value of its target.
    FormEvent { value: String },
    /// An event of a category that carries nothing beyond having happened.
    Occurred(EventCategory),
}

#[derive(Clone, Copy, Debug, PartialEq, Eq, Structural)]
pub enum EventPriority {
    High,
    Medium,
    Low,
}

/// A dispatched event, routed to the component and node it belongs to.
#[derive(Debug, PartialEq, Eq)]
pub struct EventTrigger {
    pub event: VirtualEvent,
    pub scope: u64,
    pub mounted_node_id: u64,
    pub priority: EventPriority,
}

/// Routes an event whose origin element carries `reservation` (the value of its
/// reservation attribute for the event's category, if it has one). An absent or
/// malformed reservation drops the event with an error.
pub fn decode_trigger(reservation: Option<&str>, event: VirtualEvent) -> (r: Result<
    EventTrigger,
    TriggerError,
>)
    ensures
        match reservation {
            None => r == Err::<EventTrigger, TriggerError>(TriggerError::MalformedTriggerAttribute),
            Some(v) => match decode_spec(v@) {
                None => r == Err::<EventTrigger, TriggerError>(
                    TriggerError::MalformedTriggerAttribute,
                ),
                Some(ids) => r is Ok && r->Ok_0 == (EventTrigger {
                    event,
                    scope: ids.0,
                    mounted_node_id: ids.1,
                    priority: EventPriority::High,
                }),
            },
        },
{
    let value = match reservation {
        Some(v) => v,
        None => return Err(TriggerError::MalformedTriggerAttribute),
    };
    match decode_reservation(value) {
        Ok((scope, mounted_node_id)) => Ok(
            EventTrigger { event, scope, mounted_node_id, priority: EventPriority::High },
        ),
        Err(e) => Err(e),
    }
}

} // verus!
