//! The capability every widget implements, and the keyed registry of children
//! that composite widgets are built on.

use vstd::prelude::*;
use vstd::std_specs::cmp::PartialEqSpec;
use vstd::string::*;
use crate::command::{Command, CommandView, Reply, command_views};
use crate::event::Event;

pub mod button;
pub mod layout;
pub mod menu;
pub mod panel;
pub mod text;
pub mod tree;
pub mod virtual_tree;

verus! {

/// Functions every component needs to provide.
///
/// A component is described by its identifier, its validity, the markup of
/// its present state, the commands it is waiting to hand to the rendering
/// surface, and what its state shows of an event, or of the answer to a
/// command, once that has been routed through it. A composite can establish
/// the last two of a child only by routing to the child.
pub trait Component {
    /// The globally unique id of the component.
    spec fn ident(&self) -> Seq<char>;

    /// The component's internal invariant.
    spec fn wf(&self) -> bool;

    /// The markup of the component in its present state.
    spec fn markup(&self) -> Seq<char>;

    /// What holds of the component after `event` was routed through it.
    spec fn handled(&self, event: &Event) -> bool;

    /// The mutation commands waiting to be handed to the rendering surface.
    spec fn outbox(&self) -> Seq<CommandView>;

    /// What holds of the component after `reply` was routed through it.
    spec fn answered(&self, reply: &Reply) -> bool;

    /// Render the component as HTML.
    fn render(&mut self) -> (html: String)
        requires
            old(self).wf(),
        ensures
            final(self).wf(),
            final(self).ident() == old(self).ident(),
            final(self).outbox() == old(self).outbox(),
            html@ == final(self).markup(),
    ;

    /// Callback for events.
    fn handle_event(&mut self, event: &Event)
        requires
            old(self).wf(),
        ensures
            final(self).wf(),
            final(self).ident() == old(self).ident(),
            final(self).handled(event),
    ;

    /// Hands out the waiting mutation commands, oldest first, and forgets them.
    fn take_commands(&mut self) -> (commands: Vec<Command>)
        requires
            old(self).wf(),
        ensures
            final(self).wf(),
            final(self).ident() == old(self).ident(),
            final(self).markup() == old(self).markup(),
            final(self).outbox() == Seq::<CommandView>::empty(),
            command_views(commands@) == old(self).outbox(),
    ;

    /// Callback for the rendering surface's answer to a command.
    fn handle_reply(&mut self, reply: &Reply)
        requires
            old(self).wf(),
        ensures
            final(self).wf(),
            final(self).ident() == old(self).ident(),
            final(self).answered(reply),
    ;

    /// The globally unique ID for the component.
    fn id(&self) -> (id: String)
        ensures
            id@ == self.ident(),
    ;
}

/// A component owned by a composite.
pub struct Child {
    pub widget: Box<dyn Component>,
}

/// Every child is valid.
pub open spec fn children_wf(items: Seq<Child>) -> bool {
    forall|i: int| 0 <= i < items.len() ==> (#[trigger] items[i]).widget.wf()
}

/// `after` holds the same children as `before`, by position and identifier.
pub open spec fn same_idents(before: Seq<Child>, after: Seq<Child>) -> bool {
    &&& after.len() == before.len()
    &&& forall|i: int|
        0 <= i < before.len() ==> (#[trigger] after[i]).widget.ident() == before[i].widget.ident()
}

/// Every child shows that `event` was routed through it.
pub open spec fn children_handled(items: Seq<Child>, event: &Event) -> bool {
    forall|i: int| 0 <= i < items.len() ==> (#[trigger] items[i]).widget.handled(event)
}

/// Every child shows that `reply` was routed through it.
pub open spec fn children_answered(items: Seq<Child>, reply: &Reply) -> bool {
    forall|i: int| 0 <= i < items.len() ==> (#[trigger] items[i]).widget.answered(reply)
}

/// The children's markup in insertion order, each between `prefix` and
/// `suffix`.
pub open spec fn wrapped_markup(items: Seq<Child>, prefix: Seq<char>, suffix: Seq<char>) -> Seq<
    char,
>
    decreases items.len(),
{
    if items.len() == 0 {
        Seq::empty()
    } else {
        wrapped_markup(items.drop_last(), prefix, suffix) + prefix + items.last().widget.markup()
            + suffix
    }
}

/// The children's markup, concatenated in insertion order.
pub open spec fn children_markup(items: Seq<Child>) -> Seq<char> {
    wrapped_markup(items, Seq::empty(), Seq::empty())
}

/// The children's waiting commands, concatenated in insertion order.
pub open spec fn children_outbox(items: Seq<Child>) -> Seq<CommandView>
    decreases items.len(),
{
    if items.len() == 0 {
        Seq::empty()
    } else {
        children_outbox(items.drop_last()) + items.last().widget.outbox()
    }
}

/// No child has a command waiting.
pub open spec fn children_quiet(items: Seq<Child>) -> bool {
    forall|i: int|
        0 <= i < items.len() ==> (#[trigger] items[i]).widget.outbox() == Seq::<
            CommandView,
        >::empty()
}

/// Children without waiting commands have an empty joint outbox.
pub proof fn lemma_quiet_outbox(items: Seq<Child>)
    requires
        children_quiet(items),
    ensures
        children_outbox(items) == Seq::<CommandView>::empty(),
    decreases items.len(),
{
    if items.len() > 0 {
        lemma_quiet_outbox(items.drop_last());
    }
}

/// The joint outbox depends only on the children's own outboxes.
pub proof fn lemma_outbox_pointwise(a: Seq<Child>, b: Seq<Child>)
    requires
        a.len() == b.len(),
        forall|i: int| 0 <= i < a.len() ==> a[i].widget.outbox() == b[i].widget.outbox(),
    ensures
        children_outbox(a) == children_outbox(b),
    decreases a.len(),
{
    if a.len() > 0 {
        lemma_outbox_pointwise(a.drop_last(), b.drop_last());
    }
}

/// The joint markup depends only on the children's own markup.
pub proof fn lemma_markup_pointwise(
    a: Seq<Child>,
    b: Seq<Child>,
    prefix: Seq<char>,
    suffix: Seq<char>,
)
    requires
        a.len() == b.len(),
        forall|i: int| 0 <= i < a.len() ==> a[i].widget.markup() == b[i].widget.markup(),
    ensures
        wrapped_markup(a, prefix, suffix) == wrapped_markup(b, prefix, suffix),
    decreases a.len(),
{
    if a.len() > 0 {
        lemma_markup_pointwise(a.drop_last(), b.drop_last(), prefix, suffix);
    }
}

/// Appending a child appends its markup: children render in insertion order.
pub proof fn lemma_markup_push(items: Seq<Child>, child: Child)
    ensures
        children_markup(items.push(child)) == children_markup(items) + child.widget.markup(),
{
    let grown = items.push(child);
    assert(grown.drop_last() == items);
    assert(children_markup(grown) == children_markup(items) + Seq::<char>::empty()
        + child.widget.markup() + Seq::<char>::empty());
    assert(children_markup(items) + Seq::<char>::empty() + child.widget.markup() + Seq::<
        char,
    >::empty() =~= children_markup(items) + child.widget.markup());
}

/// A slot with one child renders as that child alone.
pub proof fn lemma_markup_single(items: Seq<Child>)
    requires
        items.len() == 1,
    ensures
        children_markup(items) == items[0].widget.markup(),
{
    assert(items.drop_last().len() == 0);
    assert(wrapped_markup(items.drop_last(), Seq::empty(), Seq::empty()) == Seq::<char>::empty());
    assert(items.last() == items[0]);
    assert(children_markup(items) == Seq::<char>::empty() + Seq::<char>::empty()
        + items[0].widget.markup() + Seq::<char>::empty());
    assert(Seq::<char>::empty() + Seq::<char>::empty() + items[0].widget.markup() + Seq::<
        char,
    >::empty() =~= items[0].widget.markup());
}

/// Appends `child` to `items`.
pub fn push_child(items: &mut Vec<Child>, child: Child)
    ensures
        final(items)@ == old(items)@.push(child),
        final(items)@.len() == old(items)@.len() + 1,
        final(items)@[old(items)@.len() as int] == child,
        forall|i: int| 0 <= i < old(items)@.len() ==> final(items)@[i] == old(items)@[i],
{
    items.push(child);
}

/// Renders every child in insertion order, each between `prefix` and `suffix`.
pub fn render_children(items: &mut Vec<Child>, prefix: &str, suffix: &str) -> (html: String)
    requires
        children_wf(old(items)@),
    ensures
        children_wf(final(items)@),
        same_idents(old(items)@, final(items)@),
        children_outbox(final(items)@) == children_outbox(old(items)@),
        html@ == wrapped_markup(final(items)@, prefix@, suffix@),
{
    let mut html = String::new();
    let mut i: usize = 0;
    while i < items.len()
        invariant
            i <= items@.len(),
            children_wf(items@),
            same_idents(old(items)@, items@),
            forall|j: int|
                0 <= j < items@.len() ==> (#[trigger] items@[j]).widget.outbox() == old(items)@[j].widget.outbox(),
            forall|j: int| i <= j < items@.len() ==> items@[j] == old(items)@[j],
            html@ == wrapped_markup(items@.take(i as int), prefix@, suffix@),
        decreases items@.len() - i,
    {
        let ghost before = items@;
        let part = items[i].widget.render();
        proof {
            assert(items@.take(i as int) == before.take(i as int));
            assert(items@.take(i + 1).drop_last() == items@.take(i as int));
            assert(items@.take(i + 1).last() == items@[i as int]);
        }
        html.append(prefix);
        html.append(part.as_str());
        html.append(suffix);
        i = i + 1;
    }
    proof {
        assert(items@.take(i as int) == items@);
        lemma_outbox_pointwise(items@, old(items)@);
    }
    html
}

/// Routes `event` to every child, in insertion order.
pub fn notify_children(items: &mut Vec<Child>, event: &Event)
    requires
        children_wf(old(items)@),
    ensures
        children_wf(final(items)@),
        same_idents(old(items)@, final(items)@),
        children_handled(final(items)@, event),
{
    let mut i: usize = 0;
    while i < items.len()
        invariant
            i <= items@.len(),
            children_wf(items@),
            same_idents(old(items)@, items@),
            forall|j: int| 0 <= j < i ==> (#[trigger] items@[j]).widget.handled(event),
        decreases items@.len() - i,
    {
        items[i].widget.handle_event(event);
        i = i + 1;
    }
}

/// Routes `reply` to every child, in insertion order.
pub fn reply_children(items: &mut Vec<Child>, reply: &Reply)
    requires
        children_wf(old(items)@),
    ensures
        children_wf(final(items)@),
        same_idents(old(items)@, final(items)@),
        children_answered(final(items)@, reply),
{
    let mut i: usize = 0;
    while i < items.len()
        invariant
            i <= items@.len(),
            children_wf(items@),
            same_idents(old(items)@, items@),
            forall|j: int| 0 <= j < i ==> (#[trigger] items@[j]).widget.answered(reply),
        decreases items@.len() - i,
    {
        items[i].widget.handle_reply(reply);
        i = i + 1;
    }
}

/// Moves the commands of `more` to the end of `commands`.
pub fn append_commands(commands: &mut Vec<Command>, more: Vec<Command>)
    ensures
        command_views(final(commands)@) == command_views(old(commands)@) + command_views(more@),
{
    let mut more = more;
    let ghost first = commands@;
    let ghost second = more@;
    commands.append(&mut more);
    assert(command_views(commands@) =~= command_views(first) + command_views(second));
}

/// Collects the waiting commands of every child, in insertion order.
pub fn take_children_commands(items: &mut Vec<Child>) -> (commands: Vec<Command>)
    requires
        children_wf(old(items)@),
    ensures
        children_wf(final(items)@),
        same_idents(old(items)@, final(items)@),
        children_quiet(final(items)@),
        forall|i: int|
            0 <= i < old(items)@.len() ==> (#[trigger] final(items)@[i]).widget.markup() == old(items)@[i].widget.markup(),
        command_views(commands@) == children_outbox(old(items)@),
{
    let mut commands: Vec<Command> = Vec::new();
    let mut i: usize = 0;
    assert(command_views(commands@) =~= Seq::<CommandView>::empty());
    while i < items.len()
        invariant
            i <= items@.len(),
            children_wf(items@),
            same_idents(old(items)@, items@),
            forall|j: int|
                0 <= j < i ==> (#[trigger] items@[j]).widget.outbox() == Seq::<
                    CommandView,
                >::empty(),
            forall|j: int|
                0 <= j < items@.len() ==> (#[trigger] items@[j]).widget.markup() == old(items)@[j].widget.markup(),
            forall|j: int| i <= j < items@.len() ==> items@[j] == old(items)@[j],
            command_views(commands@) == children_outbox(old(items)@.take(i as int)),
        decreases items@.len() - i,
    {
        let more = items[i].widget.take_commands();
        proof {
            assert(old(items)@.take(i + 1).drop_last() == old(items)@.take(i as int));
            assert(old(items)@.take(i + 1).last() == old(items)@[i as int]);
        }
        append_commands(&mut commands, more);
        i = i + 1;
    }
    proof {
        assert(old(items)@.take(i as int) == old(items)@);
    }
    commands
}

/// The children registered under one key, in insertion order.
pub struct Slot<K> {
    pub key: K,
    pub components: Vec<Child>,
}

/// A keyed registry of child components.
///
/// Keys keep the order in which they were first used, and the children of a
/// key keep the order in which they were added; rendering and event dispatch
/// follow these orders.
pub struct ComponentManager<K> {
    pub slots: Vec<Slot<K>>,
}

/// Comparing two keys with `==` tells whether they are the same key.
pub open spec fn key_law<K: PartialEq>() -> bool {
    &&& K::obeys_eq_spec()
    &&& forall|a: K, b: K| #[trigger] a.eq_spec(&b) <==> (a == b)
}

/// The waiting commands of all slots, slot by slot.
pub open spec fn slots_outbox<K>(slots: Seq<Slot<K>>) -> Seq<CommandView>
    decreases slots.len(),
{
    if slots.len() == 0 {
        Seq::empty()
    } else {
        slots_outbox(slots.drop_last()) + children_outbox(slots.last().components@)
    }
}

/// The joint outbox of the slots depends only on the slots' own outboxes.
pub proof fn lemma_slots_outbox_pointwise<K>(a: Seq<Slot<K>>, b: Seq<Slot<K>>)
    requires
        a.len() == b.len(),
        forall|i: int|
            0 <= i < a.len() ==> children_outbox(a[i].components@) == children_outbox(
                b[i].components@,
            ),
    ensures
        slots_outbox(a) == slots_outbox(b),
    decreases a.len(),
{
    if a.len() > 0 {
        lemma_slots_outbox_pointwise(a.drop_last(), b.drop_last());
    }
}

/// Slots whose children have nothing waiting have an empty joint outbox.
pub proof fn lemma_slots_quiet<K>(slots: Seq<Slot<K>>)
    requires
        forall|i: int| 0 <= i < slots.len() ==> children_quiet(#[trigger] slots[i].components@),
    ensures
        slots_outbox(slots) == Seq::<CommandView>::empty(),
    decreases slots.len(),
{
    if slots.len() > 0 {
        lemma_slots_quiet(slots.drop_last());
        lemma_quiet_outbox(slots.last().components@);
    }
}

impl<K: PartialEq> ComponentManager<K> {
    /// The keys in use, in the order of their first use.
    pub open spec fn keys(&self) -> Seq<K> {
        self.slots@.map_values(|s: Slot<K>| s.key)
    }

    /// Whether anything was ever registered under `key`.
    pub open spec fn has_key(&self, key: K) -> bool {
        exists|i: int| 0 <= i < self.slots@.len() && (#[trigger] self.slots@[i]).key == key
    }

    /// The position of `key` among the keys.
    pub open spec fn slot_index(&self, key: K) -> int {
        choose|i: int| 0 <= i < self.slots@.len() && (#[trigger] self.slots@[i]).key == key
    }

    /// The children registered under `key`, in insertion order; empty for a
    /// key that was never used.
    pub open spec fn slot(&self, key: K) -> Seq<Child> {
        if self.has_key(key) {
            self.slots@[self.slot_index(key)].components@
        } else {
            Seq::empty()
        }
    }

    /// The waiting commands of all children, slot by slot.
    pub open spec fn outbox(&self) -> Seq<CommandView> {
        slots_outbox(self.slots@)
    }

    /// No key occurs twice and every child is valid.
    pub open spec fn wf(&self) -> bool {
        &&& key_law::<K>()
        &&& forall|i: int, j: int|
            0 <= i < j < self.slots@.len() ==> (#[trigger] self.slots@[i]).key != (
            #[trigger] self.slots@[j]).key
        &&& forall|i: int|
            0 <= i < self.slots@.len() ==> children_wf((#[trigger] self.slots@[i]).components@)
    }

    /// `after` has the keys of `self` in the same order, and under each key
    /// the same children by position and identifier.
    pub open spec fn same_structure(&self, after: &Self) -> bool {
        &&& after.slots@.len() == self.slots@.len()
        &&& forall|i: int|
            0 <= i < self.slots@.len() ==> {
                &&& (#[trigger] after.slots@[i]).key == self.slots@[i].key
                &&& same_idents(self.slots@[i].components@, after.slots@[i].components@)
            }
    }

    /// Every child in `after` has the markup of the child at its place in
    /// `self`.
    pub open spec fn same_markup(&self, after: &Self) -> bool {
        &&& after.slots@.len() == self.slots@.len()
        &&& forall|i: int, j: int|
            0 <= i < self.slots@.len() && 0 <= j < self.slots@[i].components@.len() ==> (
            #[trigger] after.slots@[i].components@[j]).widget.markup()
                == self.slots@[i].components@[j].widget.markup()
    }

    /// Every child shows that `reply` was routed through it.
    pub open spec fn answered(&self, reply: &Reply) -> bool {
        forall|i: int|
            0 <= i < self.slots@.len() ==> children_answered(
                (#[trigger] self.slots@[i]).components@,
                reply,
            )
    }

    /// Every child shows that `event` was routed through it.
    pub open spec fn handled(&self, event: &Event) -> bool {
        forall|i: int|
            0 <= i < self.slots@.len() ==> children_handled(
                (#[trigger] self.slots@[i]).components@,
                event,
            )
    }

    /// The slot at position `i` is the slot of its key.
    pub proof fn lemma_slot_at(&self, i: int)
        requires
            self.wf(),
            0 <= i < self.slots@.len(),
        ensures
            self.has_key(self.slots@[i].key),
            self.slot_index(self.slots@[i].key) == i,
            self.slot(self.slots@[i].key) == self.slots@[i].components@,
    {
        let key = self.slots@[i].key;
        assert(self.slots@[i].key == key);
        let j = self.slot_index(key);
        assert(0 <= j < self.slots@.len() && self.slots@[j].key == key);
        if j < i {
            assert(self.slots@[j].key != self.slots@[i].key);
        } else if i < j {
            assert(self.slots@[i].key != self.slots@[j].key);
        }
    }

    /// Under every key, `after` holds the same children as `self` by position
    /// and identifier.
    pub proof fn lemma_same_structure(&self, after: &Self, key: K)
        requires
            self.wf(),
            after.wf(),
            self.same_structure(after),
        ensures
            after.has_key(key) == self.has_key(key),
            same_idents(self.slot(key), after.slot(key)),
    {
        if self.has_key(key) {
            let i = self.slot_index(key);
            assert(after.slots@[i].key == key);
            self.lemma_slot_at(i);
            after.lemma_slot_at(i);
        } else if after.has_key(key) {
            let i = after.slot_index(key);
            assert(after.slots@[i].key == self.slots@[i].key);
            assert(self.slots@[i].key == key);
        }
    }

    /// A new registry without keys.
    pub fn new() -> (manager: Self)
        requires
            key_law::<K>(),
        ensures
            manager.wf(),
            manager.keys() == Seq::<K>::empty(),
            manager.outbox() == Seq::<CommandView>::empty(),
            forall|key: K| manager.slot(key) == Seq::<Child>::empty(),
    {
        let manager = ComponentManager { slots: Vec::new() };
        assert(manager.keys() =~= Seq::<K>::empty());
        manager
    }

    /// The position of `key` among the keys, if it is in use.
    pub fn position(&self, key: &K) -> (found: Option<usize>)
        requires
            self.wf(),
        ensures
            match found {
                Some(i) => {
                    &&& i < self.slots@.len()
                    &&& self.slots@[i as int].key == *key
                    &&& self.has_key(*key)
                    &&& self.slot_index(*key) == i
                    &&& self.slot(*key) == self.slots@[i as int].components@
                },
                None => !self.has_key(*key) && self.slot(*key) == Seq::<Child>::empty(),
            },
    {
        let mut i: usize = 0;
        while i < self.slots.len()
            invariant
                i <= self.slots@.len(),
                self.wf(),
                forall|j: int| 0 <= j < i ==> (#[trigger] self.slots@[j]).key != *key,
            decreases self.slots@.len() - i,
        {
            if self.slots[i].key == *key {
                proof {
                    assert(self.slots@[i as int].key.eq_spec(key));
                    self.lemma_slot_at(i as int);
                }
                return Some(i);
            }
            proof {
                assert(!self.slots@[i as int].key.eq_spec(key));
            }
            i = i + 1;
        }
        None
    }

    /// Replace the contents of the slot `key` with exactly one component.
    pub fn set_component(&mut self, key: K, comp: Child)
        requires
            old(self).wf(),
            comp.widget.wf(),
        ensures
            final(self).wf(),
            final(self).has_key(key),
            final(self).slot(key) == seq![comp],
            final(self).slot(key).len() == 1,
            final(self).slot(key)[0] == comp,
            forall|other: K|
                other != key ==> final(self).slot(other) == old(self).slot(other) && final(self).has_key(other) == old(self).has_key(other),
            old(self).has_key(key) ==> final(self).keys() == old(self).keys(),
            !old(self).has_key(key) ==> final(self).keys() == old(self).keys().push(key),
    {
        let mut single: Vec<Child> = Vec::new();
        push_child(&mut single, comp);
        assert(single@ =~= seq![comp]);
        let found = self.position(&key);
        match found {
            Some(i) => {
                self.slots[i].components = single;
                proof {
                    assert(self.keys() =~= old(self).keys());
                    assert(self.wf());
                    self.lemma_slot_at(i as int);
                    assert forall|other: K| other != key implies self.slot(other) == old(self).slot(other) && self.has_key(other) == old(self).has_key(other) by {
                        old(self).lemma_kept_slot(self, other, i as int);
                    }
                }
            },
            None => {
                let ghost at = self.slots@.len() as int;
                self.slots.push(Slot { key, components: single });
                proof {
                    assert(self.keys() =~= old(self).keys().push(key));
                    assert(self.slots@[at].key == key);
                    assert(self.wf());
                    self.lemma_slot_at(at);
                    assert forall|other: K| other != key implies self.slot(other) == old(self).slot(other) && self.has_key(other) == old(self).has_key(other) by {
                        old(self).lemma_kept_slot(self, other, at);
                    }
                }
            },
        }
    }

    /// Append a component to the slot `key`.
    pub fn add_component(&mut self, key: K, comp: Child)
        requires
            old(self).wf(),
            comp.widget.wf(),
        ensures
            final(self).wf(),
            final(self).has_key(key),
            final(self).slot(key) == old(self).slot(key).push(comp),
            final(self).slot(key).len() == old(self).slot(key).len() + 1,
            final(self).slot(key).last() == comp,
            final(self).slot(key).drop_last() == old(self).slot(key),
            forall|other: K|
                other != key ==> final(self).slot(other) == old(self).slot(other) && final(self).has_key(other) == old(self).has_key(other),
            old(self).has_key(key) ==> final(self).keys() == old(self).keys(),
            !old(self).has_key(key) ==> final(self).keys() == old(self).keys().push(key),
    {
        let found = self.position(&key);
        match found {
            Some(i) => {
                push_child(&mut self.slots[i].components, comp);
                proof {
                    assert(self.keys() =~= old(self).keys());
                    assert(self.wf());
                    self.lemma_slot_at(i as int);
                    assert forall|other: K| other != key implies self.slot(other) == old(self).slot(other) && self.has_key(other) == old(self).has_key(other) by {
                        old(self).lemma_kept_slot(self, other, i as int);
                    }
                }
            },
            None => {
                let ghost at = self.slots@.len() as int;
                let mut single: Vec<Child> = Vec::new();
                push_child(&mut single, comp);
                assert(single@ =~= old(self).slot(key).push(comp));
                self.slots.push(Slot { key, components: single });
                proof {
                    assert(self.keys() =~= old(self).keys().push(key));
                    assert(self.slots@[at].key == key);
                    assert(self.wf());
                    self.lemma_slot_at(at);
                    assert forall|other: K| other != key implies self.slot(other) == old(self).slot(other) && self.has_key(other) == old(self).has_key(other) by {
                        old(self).lemma_kept_slot(self, other, at);
                    }
                }
            },
        }
    }

    /// A key other than the one at position `at` keeps its slot when only
    /// that position changed or was appended.
    pub proof fn lemma_kept_slot(&self, after: &Self, other: K, at: int)
        requires
            self.wf(),
            after.wf(),
            0 <= at < after.slots@.len(),
            after.slots@[at].key != other,
            self.slots@.len() == after.slots@.len() || (self.slots@.len() == at
                && after.slots@.len() == at + 1),
            forall|i: int|
                0 <= i < self.slots@.len() && i != at ==> self.slots@[i] == after.slots@[i],
            at < self.slots@.len() ==> self.slots@[at].key == after.slots@[at].key,
        ensures
            after.slot(other) == self.slot(other),
            after.has_key(other) == self.has_key(other),
    {
        if self.has_key(other) {
            let i = self.slot_index(other);
            assert(after.slots@[i].key == other);
            self.lemma_slot_at(i);
            after.lemma_slot_at(i);
        } else if after.has_key(other) {
            let i = after.slot_index(other);
            assert(self.slots@[i].key == other);
        }
    }

    /// Render the components of the slot `key` in insertion order, each
    /// between `prefix` and `suffix`. A key without components renders as
    /// empty markup.
    pub fn render_component_with(&mut self, key: &K, prefix: &str, suffix: &str) -> (html: String)
        requires
            old(self).wf(),
        ensures
            final(self).wf(),
            old(self).same_structure(final(self)),
            final(self).outbox() == old(self).outbox(),
            forall|other: K|
                other != *key ==> final(self).slot(other) == old(self).slot(other),
            html@ == wrapped_markup(final(self).slot(*key), prefix@, suffix@),
    {
        let found = self.position(key);
        match found {
            Some(i) => {
                let html = render_children(&mut self.slots[i].components, prefix, suffix);
                proof {
                    assert(self.wf());
                    self.lemma_slot_at(i as int);
                    lemma_slots_outbox_pointwise(self.slots@, old(self).slots@);
                    assert forall|other: K| other != *key implies self.slot(other) == old(self).slot(other) by {
                        old(self).lemma_kept_slot(self, other, i as int);
                    }
                }
                html
            },
            None => String::new(),
        }
    }

    /// Render the components of the slot `key`, concatenated in insertion
    /// order. A key without components renders as empty markup.
    pub fn render_component(&mut self, key: &K) -> (html: String)
        requires
            old(self).wf(),
        ensures
            final(self).wf(),
            old(self).same_structure(final(self)),
            final(self).outbox() == old(self).outbox(),
            forall|other: K|
                other != *key ==> final(self).slot(other) == old(self).slot(other),
            html@ == children_markup(final(self).slot(*key)),
    {
        proof {
            reveal_strlit("");
            assert(""@ =~= Seq::<char>::empty());
        }
        self.render_component_with(key, "", "")
    }

    /// Forward `event` to every component in every slot, in slot-then-insertion
    /// order.
    pub fn notify_all_components(&mut self, event: &Event)
        requires
            old(self).wf(),
        ensures
            final(self).wf(),
            old(self).same_structure(final(self)),
            final(self).handled(event),
    {
        let mut i: usize = 0;
        while i < self.slots.len()
            invariant
                i <= self.slots@.len(),
                self.wf(),
                old(self).same_structure(self),
                forall|j: int|
                    0 <= j < i ==> children_handled((#[trigger] self.slots@[j]).components@, event),
            decreases self.slots@.len() - i,
        {
            notify_children(&mut self.slots[i].components, event);
            i = i + 1;
        }
    }

    /// Forward `reply` to every component in every slot, in slot-then-insertion
    /// order.
    pub fn forward_reply(&mut self, reply: &Reply)
        requires
            old(self).wf(),
        ensures
            final(self).wf(),
            old(self).same_structure(final(self)),
            final(self).answered(reply),
    {
        let mut i: usize = 0;
        while i < self.slots.len()
            invariant
                i <= self.slots@.len(),
                self.wf(),
                old(self).same_structure(self),
                forall|j: int|
                    0 <= j < i ==> children_answered((#[trigger] self.slots@[j]).components@, reply),
            decreases self.slots@.len() - i,
        {
            reply_children(&mut self.slots[i].components, reply);
            i = i + 1;
        }
    }

    /// Collect the waiting commands of every component, in slot-then-insertion
    /// order.
    pub fn take_commands(&mut self) -> (commands: Vec<Command>)
        requires
            old(self).wf(),
        ensures
            final(self).wf(),
            old(self).same_structure(final(self)),
            old(self).same_markup(final(self)),
            final(self).outbox() == Seq::<CommandView>::empty(),
            command_views(commands@) == old(self).outbox(),
    {
        let mut commands: Vec<Command> = Vec::new();
        let mut i: usize = 0;
        assert(command_views(commands@) =~= Seq::<CommandView>::empty());
        while i < self.slots.len()
            invariant
                i <= self.slots@.len(),
                self.wf(),
                old(self).same_structure(self),
                old(self).same_markup(self),
                forall|j: int|
                    0 <= j < i ==> children_quiet((#[trigger] self.slots@[j]).components@),
                forall|j: int| i <= j < self.slots@.len() ==> self.slots@[j] == old(self).slots@[j],
                command_views(commands@) == slots_outbox(old(self).slots@.take(i as int)),
            decreases self.slots@.len() - i,
        {
            let more = take_children_commands(&mut self.slots[i].components);
            proof {
                assert(old(self).slots@.take(i + 1).drop_last() == old(self).slots@.take(i as int));
                assert(old(self).slots@.take(i + 1).last() == old(self).slots@[i as int]);
            }
            append_commands(&mut commands, more);
            i = i + 1;
        }
        proof {
            assert(old(self).slots@.take(i as int) == old(self).slots@);
            lemma_slots_quiet(self.slots@);
        }
        commands
    }

    /// Under every key, the children's markup in `after` is that of `self`.
    pub proof fn lemma_same_markup(
        &self,
        after: &Self,
        key: K,
        prefix: Seq<char>,
        suffix: Seq<char>,
    )
        requires
            self.wf(),
            after.wf(),
            self.same_structure(after),
            self.same_markup(after),
        ensures
            wrapped_markup(after.slot(key), prefix, suffix) == wrapped_markup(
                self.slot(key),
                prefix,
                suffix,
            ),
    {
        self.lemma_same_structure(after, key);
        if self.has_key(key) {
            let i = self.slot_index(key);
            assert(after.slots@[i].key == key);
            self.lemma_slot_at(i);
            after.lemma_slot_at(i);
            lemma_markup_pointwise(after.slot(key), self.slot(key), prefix, suffix);
        }
    }
}

} // verus!
