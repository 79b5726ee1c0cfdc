//! The calendar colour and the `X-TUTA-ITEM` property that links a local
//! event to its Tuta entity.

use vstd::prelude::*;

use crate::event::{Event, EventView, XProperty, XPropertyView};
use crate::text::{
    byte_len, byte_len_is, chars_of, eq_ignore_ascii_case, eq_ignore_ascii_case_spec,
    is_boundary_at, string_of,
};

verus! {

/// The property that holds the Tuta `<list-id>/<element-id>` of an event.
pub const ITEM_UID_PROPERTY: &'static str = "X-TUTA-ITEM";

pub open spec fn is_hex_char(c: char) -> bool {
    ('0' <= c && c <= '9') || ('a' <= c && c <= 'f') || ('A' <= c && c <= 'F')
}

pub open spec fn all_hex(s: Seq<char>) -> bool {
    forall|i: int| 0 <= i < s.len() ==> is_hex_char(#[trigger] s[i])
}

pub open spec fn strip_hash(s: Seq<char>) -> Seq<char> {
    if s.len() > 0 && s[0] == '#' {
        s.skip(1)
    } else {
        s
    }
}

/// A colour as Tuta stores it (`rrggbb`, `#rrggbb` or `#rrggbbaa`), as
/// `#rrggbb`; anything else comes back without its leading `#`.
pub open spec fn normalized_color(color: Seq<char>) -> Seq<char> {
    let c = strip_hash(color);
    if c.len() >= 6 && all_hex(c.take(6)) && (c.len() == 6 || byte_len(c) == 8) {
        seq!['#'] + c.take(6)
    } else {
        c
    }
}

/// Normalises a Tuta calendar colour to `#rrggbb`, dropping an alpha
/// channel; text that is no such colour is kept, without a leading `#`.
pub fn normalize_color(color: &str) -> (r: String)
    requires
        byte_len(strip_hash(color@)) == 8 ==> is_boundary_at(strip_hash(color@), 6),
    ensures
        r@ == normalized_color(color@),
{
    let all = chars_of(color);
    let from: usize = if all.len() > 0 && all[0] == '#' {
        1
    } else {
        0
    };
    let ghost c = strip_hash(color@);
    assert(c =~= all@.skip(from as int));
    let n = all.len() - from;
    let mut hex6 = n >= 6;
    if hex6 {
        for i in 0..6
            invariant
                n >= 6,
                from + n == all.len(),
                c =~= all@.skip(from as int),
                hex6 == forall|j: int| 0 <= j < i ==> is_hex_char(#[trigger] c[j]),
        {
            let ch = all[from + i];
            assert(ch == c[i as int]);
            if !((ch >= '0' && ch <= '9') || (ch >= 'a' && ch <= 'f') || (ch >= 'A' && ch
                <= 'F')) {
                hex6 = false;
            }
        }
    }
    assert(hex6 == (c.len() >= 6 && all_hex(c.take(6)))) by {
        if c.len() >= 6 {
            assert forall|j: int| 0 <= j < 6 implies c.take(6)[j] == c[j] by {}
        }
    }
    let mut out: Vec<char> = Vec::new();
    if hex6 && (n == 6 || byte_len_is(&all, from, 8)) {
        out.push('#');
        for i in 0..6
            invariant
                n >= 6,
                from + n == all.len(),
                c =~= all@.skip(from as int),
                out@ =~= seq!['#'] + c.take(i as int),
        {
            out.push(all[from + i]);
        }
    } else {
        for i in from..all.len()
            invariant
                from <= i <= all.len(),
                c =~= all@.skip(from as int),
                out@ =~= c.take(i - from),
        {
            out.push(all[i]);
        }
        assert(c.take(n as int) =~= c);
    }
    string_of(&out)
}

/// Normalising a colour twice gives what normalising it once gave, unless
/// the colour starts with two `#` (the first pass strips only one of them).
pub proof fn lemma_normalized_color_idempotent(color: Seq<char>)
    requires
        !(strip_hash(color).len() > 0 && strip_hash(color)[0] == '#'),
    ensures
        normalized_color(normalized_color(color)) == normalized_color(color),
{
    let c = strip_hash(color);
    if c.len() >= 6 && all_hex(c.take(6)) && (c.len() == 6 || byte_len(c) == 8) {
        let n = seq!['#'] + c.take(6);
        assert(strip_hash(n) =~= c.take(6));
        assert(c.take(6).take(6) =~= c.take(6));
    }
}

/// Whether a property name is `X-TUTA-ITEM`, in any ASCII case.
pub open spec fn is_item_name(name: Seq<char>) -> bool {
    eq_ignore_ascii_case_spec(name, ITEM_UID_PROPERTY@)
}

/// The properties that are kept when the item reference is replaced.
pub open spec fn without_item_refs(props: Seq<XPropertyView>) -> Seq<XPropertyView>
    decreases props.len(),
{
    if props.len() == 0 {
        props
    } else {
        let rest = without_item_refs(props.drop_last());
        if is_item_name(props.last().name) {
            rest
        } else {
            rest.push(props.last())
        }
    }
}

/// The index of the first property named `X-TUTA-ITEM`, in any case.
pub open spec fn first_item_ref(props: Seq<XPropertyView>) -> Option<int>
    decreases props.len(),
{
    if props.len() == 0 {
        None
    } else {
        match first_item_ref(props.drop_last()) {
            Some(i) => Some(i),
            None => if is_item_name(props.last().name) {
                Some(props.len() - 1)
            } else {
                None
            },
        }
    }
}

/// The `X-TUTA-ITEM` property that holds the value.
pub open spec fn item_property(value: Seq<char>) -> XPropertyView {
    XPropertyView { name: ITEM_UID_PROPERTY@, value, params: seq![] }
}

/// The event with every `X-TUTA-ITEM` property replaced by one that holds
/// the value, placed last.
pub open spec fn with_item_ref(ev: EventView, value: Seq<char>) -> EventView {
    EventView {
        x_properties: without_item_refs(ev.x_properties).push(item_property(value)),
        ..ev
    }
}

/// How many properties are named `X-TUTA-ITEM`, in any case.
pub open spec fn item_ref_count(props: Seq<XPropertyView>) -> nat
    decreases props.len(),
{
    if props.len() == 0 {
        0
    } else {
        item_ref_count(props.drop_last()) + if is_item_name(props.last().name) {
            1nat
        } else {
            0nat
        }
    }
}

/// Replaces every `X-TUTA-ITEM` property of the event by one that holds
/// `item_ref`, placed last; the other properties and fields stay.
pub fn set_item_ref(event: &mut Event, item_ref: &str)
    ensures
        final(event)@ == with_item_ref(old(event)@, item_ref@),
{
    let name = chars_of(ITEM_UID_PROPERTY);
    let ghost orig = old(event)@.x_properties;
    let mut i: usize = 0;
    let ghost mut k: int = 0;
    while i < event.x_properties.len()
        invariant
            0 <= i <= event.x_properties.len(),
            0 <= k <= orig.len(),
            name@ == ITEM_UID_PROPERTY@,
            event@ == (EventView { x_properties: event@.x_properties, ..old(event)@ }),
            event@.x_properties.take(i as int) == without_item_refs(orig.take(k)),
            event@.x_properties.skip(i as int) == orig.skip(k),
        decreases event.x_properties.len() - i,
    {
        let ghost before = event@.x_properties;
        let pname = chars_of(event.x_properties[i].name.as_str());
        assert(before.skip(i as int).len() > 0);
        assert(orig.skip(k).len() > 0);
        assert(orig.take(k + 1).drop_last() =~= orig.take(k));
        assert(orig[k] == orig.skip(k)[0]);
        assert(orig[k] == before.skip(i as int)[0]);
        assert(before[i as int] == event.x_properties@[i as int]@);
        if eq_ignore_ascii_case(&pname, &name) {
            event.x_properties.remove(i);
            assert(event@.x_properties.take(i as int) =~= before.take(i as int));
            assert(event@.x_properties.skip(i as int) =~= before.skip(i + 1));
            assert(orig.skip(k + 1) =~= orig.skip(k).skip(1));
        } else {
            assert(before.take(i + 1) =~= before.take(i as int).push(before[i as int]));
            assert(before.skip(i + 1) =~= before.skip(i as int).skip(1));
            assert(orig.skip(k + 1) =~= orig.skip(k).skip(1));
            i = i + 1;
        }
        proof { k = k + 1; }
    }
    assert(event@.x_properties.take(i as int) =~= event@.x_properties);
    assert(orig.skip(k).len() == 0);
    assert(orig.take(k) =~= orig);
    let p = XProperty::new(ITEM_UID_PROPERTY, item_ref);
    event.x_properties.push(p);
    assert(p@.params =~= seq![]);
    assert(event@.x_properties =~= without_item_refs(orig).push(p@));
    assert(p@ == item_property(item_ref@));
}

/// The value of the first property named `X-TUTA-ITEM`, in any ASCII case.
pub fn item_ref(event: &Event) -> (r: Option<&str>)
    ensures
        match first_item_ref(event@.x_properties) {
            Some(i) => r matches Some(v) && v@ == event@.x_properties[i].value,
            None => r is None,
        },
{
    let name = chars_of(ITEM_UID_PROPERTY);
    let ghost props = event@.x_properties;
    for i in 0..event.x_properties.len()
        invariant
            name@ == ITEM_UID_PROPERTY@,
            props == event@.x_properties,
            first_item_ref(props.take(i as int)) is None,
    {
        let pname = chars_of(event.x_properties[i].name.as_str());
        assert(props.take(i + 1).drop_last() =~= props.take(i as int));
        if eq_ignore_ascii_case(&pname, &name) {
            assert(first_item_ref(props.take(i + 1)) == Some(i as int));
            proof { lemma_first_item_ref_prefix(props, (i + 1) as int); }
            return Some(event.x_properties[i].value.as_str());
        }
    }
    assert(props.take(props.len() as int) =~= props);
    None
}

/// A match found in a prefix is the first match of the whole list.
pub proof fn lemma_first_item_ref_prefix(props: Seq<XPropertyView>, k: int)
    requires
        0 <= k <= props.len(),
        first_item_ref(props.take(k)) is Some,
    ensures
        first_item_ref(props) == first_item_ref(props.take(k)),
    decreases props.len() - k,
{
    if k < props.len() {
        assert(props.take(k + 1).drop_last() =~= props.take(k));
        lemma_first_item_ref_prefix(props, k + 1);
    } else {
        assert(props.take(k) =~= props);
    }
}

/// The properties that are kept hold no `X-TUTA-ITEM` property.
pub proof fn lemma_without_item_refs_clean(props: Seq<XPropertyView>)
    ensures
        first_item_ref(without_item_refs(props)) is None,
        item_ref_count(without_item_refs(props)) == 0,
        without_item_refs(without_item_refs(props)) == without_item_refs(props),
    decreases props.len(),
{
    if props.len() > 0 {
        let rest = without_item_refs(props.drop_last());
        lemma_without_item_refs_clean(props.drop_last());
        if !is_item_name(props.last().name) {
            let w = rest.push(props.last());
            assert(w.drop_last() =~= rest);
        }
    }
}

/// The property name `X-TUTA-ITEM` is one that the link is found by.
pub proof fn lemma_item_name()
    ensures
        is_item_name(ITEM_UID_PROPERTY@),
{
}

/// After the link is set, the event holds exactly one `X-TUTA-ITEM`
/// property, and reading the link gives the value that was set.
pub proof fn lemma_item_ref_after_set(ev: EventView, value: Seq<char>)
    ensures
        first_item_ref(with_item_ref(ev, value).x_properties) == Some(
            (with_item_ref(ev, value).x_properties.len() - 1) as int,
        ),
        with_item_ref(ev, value).x_properties.last().value == value,
        item_ref_count(with_item_ref(ev, value).x_properties) == 1,
{
    let kept = without_item_refs(ev.x_properties);
    let props = kept.push(item_property(value));
    lemma_without_item_refs_clean(ev.x_properties);
    lemma_item_name();
    assert(props.drop_last() =~= kept);
}

/// Setting the link twice is setting it once, to the second value.
pub proof fn lemma_item_ref_set_twice(ev: EventView, first: Seq<char>, second: Seq<char>)
    ensures
        with_item_ref(with_item_ref(ev, first), second) == with_item_ref(ev, second),
{
    let kept = without_item_refs(ev.x_properties);
    let props = kept.push(item_property(first));
    lemma_without_item_refs_clean(ev.x_properties);
    lemma_item_name();
    assert(props.drop_last() =~= kept);
    assert(without_item_refs(props) == kept);
}

} // verus!
