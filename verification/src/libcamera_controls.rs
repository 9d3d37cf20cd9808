//! Controls of libcamera sources.
//!
//! Setting a control queues the value for its camera (see [`PendingControls`])
//! and marks the camera dirty; the streaming side applies dirty values
//! between requests, gate properties first. Setting a value property also
//! queues the `manual` enumerator of its `{property}-mode` gate when the
//! source has one, and the exposure controls adjust the analogue gain gate
//! (shutter freezes gain; exposure value leaves it automatic).
use vstd::prelude::*;
use vstd::string::StringSliceAdditionalSpecFns;
use crate::controls::{
    analogue_gain_mode_nick_for, analogue_gain_mode_nick_spec, companion_mode_property,
    companion_mode_spec, control_default, default_of, integer_slider_limits,
    integer_slider_limits_spec, ipa_bool_default, ipa_bool_default_spec, ipa_overlay_spec,
    is_mode_like, is_mode_like_property, control_current_value, set_control_value, value_of, with_value, Control, ControlBool,
    ControlSlider, ControlType,
};
use crate::pending::{
    entries_map, law_read_after_store, lookup_spec, map_pending_of, seq_lt, sorted_entries, store_spec, taken_spec, PendingControls, PendingMap, PendingValue,
    PendingView,
};
use crate::text::str_eq;

verus! {

/// Control ids are kept below this bound so that their decimal text fits
/// the eight characters of a MAVLink parameter id.
pub const SOURCE_CONTROL_ID_SPACE: u64 = 100_000_000;

/// 64-bit FNV-1a hash of `bytes`.
pub open spec fn fnv1a(bytes: Seq<u8>) -> u64
    decreases bytes.len(),
{
    if bytes.len() == 0 {
        0xcbf2_9ce4_8422_2325
    } else {
        (fnv1a(bytes.drop_last()) ^ (bytes.last() as u64)).wrapping_mul(0x0000_0100_0000_01b3)
    }
}

/// The stable control id of a source property: the FNV-1a hash of its name,
/// reduced below [`SOURCE_CONTROL_ID_SPACE`].
pub fn control_id_for_property(name: &str) -> (r: u64)
    ensures
        r == fnv1a(name.spec_bytes()) % SOURCE_CONTROL_ID_SPACE,
        r < SOURCE_CONTROL_ID_SPACE,
{
    let bytes = name.as_bytes();
    let mut h: u64 = 0xcbf2_9ce4_8422_2325;
    let mut i: usize = 0;
    while i < bytes.len()
        invariant
            i <= bytes@.len(),
            bytes@ == name.spec_bytes(),
            h == fnv1a(bytes@.take(i as int)),
        decreases bytes@.len() - i,
    {
        proof {
            assert(bytes@.take(i + 1).drop_last() =~= bytes@.take(i as int));
        }
        h = (h ^ (bytes[i] as u64)).wrapping_mul(0x0000_0100_0000_01b3);
        i = i + 1;
    }
    proof {
        assert(bytes@.take(i as int) =~= bytes@);
    }
    h % SOURCE_CONTROL_ID_SPACE
}

/// An enumerator of an enum property: its nick and its value.
pub struct EnumNick {
    pub property: String,
    pub nick: String,
    pub value: i64,
}

/// What the control rules read of a libcamera source element: the names of
/// its properties and the enumerators of its enum properties.
pub struct ElementControlInfo {
    pub properties: Vec<String>,
    pub enum_values: Vec<EnumNick>,
}

pub open spec fn has_property_spec(info: ElementControlInfo, name: Seq<char>) -> bool {
    exists|i: int| 0 <= i < info.properties@.len() && (#[trigger] info.properties@[i])@ == name
}

/// Value of the first enumerator `nick` of `property`.
pub open spec fn enum_value_spec(info: ElementControlInfo, property: Seq<char>, nick: Seq<char>) -> Option<i64> {
    enum_value_in(info.enum_values@, property, nick)
}

pub open spec fn enum_value_in(s: Seq<EnumNick>, property: Seq<char>, nick: Seq<char>) -> Option<i64>
    decreases s.len(),
{
    if s.len() == 0 {
        None
    } else if s[0].property@ == property && s[0].nick@ == nick {
        Some(s[0].value)
    } else {
        enum_value_in(s.drop_first(), property, nick)
    }
}

impl ElementControlInfo {
    pub fn has_property(&self, name: &str) -> (r: bool)
        ensures
            r == has_property_spec(*self, name@),
    {
        let mut i: usize = 0;
        while i < self.properties.len()
            invariant
                i <= self.properties@.len(),
                forall|k: int| 0 <= k < i ==> (#[trigger] self.properties@[k])@ != name@,
            decreases self.properties@.len() - i,
        {
            if str_eq(self.properties[i].as_str(), name) {
                return true;
            }
            i = i + 1;
        }
        false
    }

    pub fn enum_value_by_nick(&self, property: &str, nick: &str) -> (r: Option<i64>)
        ensures
            r == enum_value_spec(*self, property@, nick@),
    {
        let mut i: usize = 0;
        assert(self.enum_values@.skip(0) =~= self.enum_values@);
        while i < self.enum_values.len()
            invariant
                i <= self.enum_values@.len(),
                enum_value_spec(*self, property@, nick@) == enum_value_in(
                    self.enum_values@.skip(i as int),
                    property@,
                    nick@,
                ),
            decreases self.enum_values@.len() - i,
        {
            proof {
                assert(self.enum_values@.skip(i as int).drop_first() =~= self.enum_values@.skip(i + 1));
                assert(self.enum_values@.skip(i as int)[0] == self.enum_values@[i as int]);
            }
            if str_eq(self.enum_values[i].property.as_str(), property) && str_eq(
                self.enum_values[i].nick.as_str(),
                nick,
            ) {
                return Some(self.enum_values[i].value);
            }
            i = i + 1;
        }
        None
    }
}


pub open spec fn store_enum_nick_spec(
    p: PendingMap,
    info: ElementControlInfo,
    camera: Seq<char>,
    property: Seq<char>,
    nick: Seq<char>,
) -> PendingMap {
    match enum_value_spec(info, property, nick) {
        Some(v) => store_spec(p, camera, property, v),
        None => p,
    }
}

pub open spec fn store_if_present_spec(
    p: PendingMap,
    info: ElementControlInfo,
    camera: Seq<char>,
    property: Seq<char>,
    value: i64,
) -> PendingMap {
    if has_property_spec(info, property) {
        store_spec(p, camera, property, value)
    } else {
        p
    }
}

pub open spec fn companion_spec(p: PendingMap, info: ElementControlInfo, camera: Seq<char>, property: Seq<char>) -> PendingMap {
    match companion_mode_spec(property) {
        Some(mode) => store_enum_nick_spec(p, info, camera, mode, "manual"@),
        None => p,
    }
}

pub open spec fn related_agc_spec(
    p: PendingMap,
    info: ElementControlInfo,
    camera: Seq<char>,
    property: Seq<char>,
    value: i64,
) -> PendingMap {
    let p1 = match analogue_gain_mode_nick_spec(property) {
        Some(nick) => store_enum_nick_spec(p, info, camera, "analogue-gain-mode"@, nick),
        None => p,
    };
    let p2 = if property == "exposure-time"@ {
        store_if_present_spec(p1, info, camera, "ae-enable"@, 0)
    } else {
        p1
    };
    if property == "exposure-time-mode"@ && enum_value_spec(info, property, "manual"@) == Some(value) {
        store_if_present_spec(
            store_enum_nick_spec(p2, info, camera, "analogue-gain-mode"@, "manual"@),
            info,
            camera,
            "ae-enable"@,
            0,
        )
    } else {
        p2
    }
}

/// The queue after setting `property` of `camera` to `value`, with the
/// companion gates queued when the source element is known.
pub open spec fn set_control_spec(
    p: PendingMap,
    info: Option<ElementControlInfo>,
    camera: Seq<char>,
    property: Seq<char>,
    value: i64,
) -> PendingMap {
    let p1 = store_spec(p, camera, property, value);
    match info {
        Some(i) => related_agc_spec(companion_spec(p1, i, camera, property), i, camera, property, value),
        None => p1,
    }
}


fn store_pending(pending: &mut PendingControls, camera: &str, property: &str, value: i64)
    requires
        old(pending).wf(),
    ensures
        final(pending).wf(),
        final(pending).view().pending == store_spec(old(pending).view().pending, camera@, property@, value),
        final(pending).view().dirty == old(pending).view().dirty,
        final(pending).view().any_dirty == old(pending).view().any_dirty,
{
    pending.store_pending(camera, property, value);
}

fn store_enum_nick(
    pending: &mut PendingControls,
    camera: &str,
    element: &ElementControlInfo,
    property: &str,
    nick: &str,
)
    requires
        old(pending).wf(),
    ensures
        final(pending).wf(),
        final(pending).view().pending == store_enum_nick_spec(
            old(pending).view().pending,
            *element,
            camera@,
            property@,
            nick@,
        ),
        final(pending).view().dirty == old(pending).view().dirty,
        final(pending).view().any_dirty == old(pending).view().any_dirty,
{
    match element.enum_value_by_nick(property, nick) {
        Some(value) => store_pending(pending, camera, property, value),
        None => {},
    }
}

fn store_pending_if_present(
    pending: &mut PendingControls,
    camera: &str,
    element: &ElementControlInfo,
    property: &str,
    value: i64,
)
    requires
        old(pending).wf(),
    ensures
        final(pending).wf(),
        final(pending).view().pending == store_if_present_spec(
            old(pending).view().pending,
            *element,
            camera@,
            property@,
            value,
        ),
        final(pending).view().dirty == old(pending).view().dirty,
        final(pending).view().any_dirty == old(pending).view().any_dirty,
{
    if element.has_property(property) {
        store_pending(pending, camera, property, value);
    }
}

fn store_companion_mode(
    pending: &mut PendingControls,
    camera: &str,
    property: &str,
    element: &ElementControlInfo,
)
    requires
        old(pending).wf(),
    ensures
        final(pending).wf(),
        final(pending).view().pending == companion_spec(old(pending).view().pending, *element, camera@, property@),
        final(pending).view().dirty == old(pending).view().dirty,
        final(pending).view().any_dirty == old(pending).view().any_dirty,
{
    match companion_mode_property(property) {
        Some(mode_property) => store_enum_nick(pending, camera, element, mode_property.as_str(), "manual"),
        None => {},
    }
}

fn store_related_agc_controls(
    pending: &mut PendingControls,
    camera: &str,
    property: &str,
    value: i64,
    element: &ElementControlInfo,
)
    requires
        old(pending).wf(),
    ensures
        final(pending).wf(),
        final(pending).view().pending == related_agc_spec(
            old(pending).view().pending,
            *element,
            camera@,
            property@,
            value,
        ),
        final(pending).view().dirty == old(pending).view().dirty,
        final(pending).view().any_dirty == old(pending).view().any_dirty,
{
    match analogue_gain_mode_nick_for(property) {
        Some(nick) => store_enum_nick(pending, camera, element, "analogue-gain-mode", nick),
        None => {},
    }
    if str_eq(property, "exposure-time") {
        store_pending_if_present(pending, camera, element, "ae-enable", 0);
    }
    if str_eq(property, "exposure-time-mode") && element.enum_value_by_nick(property, "manual")
        == Some(value) {
        store_enum_nick(pending, camera, element, "analogue-gain-mode", "manual");
        store_pending_if_present(pending, camera, element, "ae-enable", 0);
    }
}

/// Queues `property` = `value` for `camera` and marks the camera dirty. With
/// the source element at hand, the property's gate and the exposure gates
/// are queued too. Always succeeds.
pub fn set_control_by_name(
    pending: &mut PendingControls,
    camera: &str,
    property: &str,
    value: i64,
    element: Option<&ElementControlInfo>,
) -> (r: Result<(), String>)
    requires
        old(pending).wf(),
    ensures
        r is Ok,
        final(pending).wf(),
        final(pending).view().pending == set_control_spec(
            old(pending).view().pending,
            match element {
                Some(e) => Some(*e),
                None => None,
            },
            camera@,
            property@,
            value,
        ),
        final(pending).view().dirty == old(pending).view().dirty.insert(camera@),
        final(pending).view().any_dirty,
{
    store_pending(pending, camera, property, value);
    match element {
        Some(element) => {
            store_companion_mode(pending, camera, property, element);
            store_related_agc_controls(pending, camera, property, value, element);
        },
        None => {},
    }
    pending.mark_dirty(camera);
    Ok(())
}

/// The queue after resetting every control of `controls` to its listed
/// default.
pub open spec fn reset_spec(p: PendingMap, camera: Seq<char>, controls: Seq<Control>) -> PendingMap
    decreases controls.len(),
{
    if controls.len() == 0 {
        p
    } else {
        let q = reset_spec(p, camera, controls.drop_last());
        let c = controls.last();
        store_spec(q, camera, c.name@, default_of(c.configuration))
    }
}

/// Queues the listed default of every listed control, and marks the camera
/// dirty. Always succeeds.
pub fn reset_controls(pending: &mut PendingControls, camera: &str, controls: &[Control]) -> (r: Result<
    (),
    Vec<String>,
>)
    requires
        old(pending).wf(),
    ensures
        r is Ok,
        final(pending).wf(),
        final(pending).view().pending == reset_spec(old(pending).view().pending, camera@, controls@),
        final(pending).view().dirty == old(pending).view().dirty.insert(camera@),
        final(pending).view().any_dirty,
{
    let mut i: usize = 0;
    while i < controls.len()
        invariant
            i <= controls@.len(),
            pending.wf(),
            pending.view().pending == reset_spec(old(pending).view().pending, camera@, controls@.take(i as int)),
            pending.view().dirty == old(pending).view().dirty,
        decreases controls@.len() - i,
    {
        proof {
            assert(controls@.take(i + 1).drop_last() =~= controls@.take(i as int));
            assert(controls@.take(i + 1).last() == controls@[i as int]);
        }
        let control = &controls[i];
        store_pending(pending, camera, control.name.as_str(), control_default(&control.configuration));
        i = i + 1;
    }
    proof {
        assert(controls@.take(i as int) =~= controls@);
    }
    pending.mark_dirty(camera);
    Ok(())
}

/// Resetting puts every listed control back at its listed default: for a
/// list without two controls of one name, reading any of them afterwards
/// gives its default.
pub proof fn law_reset_restores_defaults(p: PendingMap, camera: Seq<char>, controls: Seq<Control>, k: int)
    requires
        forall|i: int, j: int| 0 <= i < j < controls.len() ==> (#[trigger] controls[i]).name@ != (
        #[trigger] controls[j]).name@,
        0 <= k < controls.len(),
    ensures
        lookup_spec(reset_spec(p, camera, controls), camera, controls[k].name@) == Some(
            default_of(controls[k].configuration),
        ),
    decreases controls.len(),
{
    let rest = controls.drop_last();
    let last = controls.last();
    let q = reset_spec(p, camera, rest);
    law_read_after_store(q, camera, last.name@, default_of(last.configuration), camera, controls[k].name@);
    if k < controls.len() - 1 {
        assert forall|i: int, j: int| 0 <= i < j < rest.len() implies (#[trigger] rest[i]).name@ != (
        #[trigger] rest[j]).name@ by {
            assert(rest[i] == controls[i]);
            assert(rest[j] == controls[j]);
        }
        assert(rest[k] == controls[k]);
        law_reset_restores_defaults(p, camera, rest, k);
        assert(controls[k].name@ != controls[controls.len() - 1].name@);
    }
}

/// The listed current value of `property`: the queued value, or `default`.
pub open spec fn current_value_spec(p: PendingMap, camera: Seq<char>, property: Seq<char>, default: i64) -> i64 {
    if map_pending_of(p, camera).contains_key(property) {
        map_pending_of(p, camera)[property]
    } else {
        default
    }
}

pub fn property_current_api_value(pending: &PendingControls, camera: &str, property: &str, default: i64) -> (r: i64)
    requires
        pending.wf(),
    ensures
        r == current_value_spec(pending.view().pending, camera@, property@, default),
{
    match pending.pending_value(camera, property) {
        Some(value) => value,
        None => default,
    }
}

/// `control` listing its current value: the queued one, or its default.
pub open spec fn overlay_spec(p: PendingMap, camera: Seq<char>, control: Control) -> Control {
    Control {
        configuration: with_value(
            control.configuration,
            current_value_spec(p, camera, control.name@, default_of(control.configuration)),
        ),
        ..control
    }
}

pub fn overlay_current_values(pending: &PendingControls, camera: &str, controls: Vec<Control>) -> (r: Vec<Control>)
    requires
        pending.wf(),
    ensures
        r@.len() == controls@.len(),
        forall|i: int| 0 <= i < r@.len() ==> #[trigger] r@[i] == overlay_spec(pending.view().pending, camera@, controls@[i]),
{
    let ghost original = controls@;
    let mut rest = controls;
    let mut out: Vec<Control> = Vec::new();
    while rest.len() > 0
        invariant
            pending.wf(),
            out@.len() + rest@.len() == original.len(),
            rest@ == original.skip(out@.len() as int),
            forall|i: int| 0 <= i < out@.len() ==> #[trigger] out@[i] == overlay_spec(pending.view().pending, camera@, original[i]),
        decreases rest@.len(),
    {
        let mut control = rest.remove(0);
        let ghost k = out@.len() as int;
        proof {
            assert(control == original[k]);
            assert(rest@ =~= original.skip(k + 1));
        }
        let default = control_default(&control.configuration);
        let value = property_current_api_value(pending, camera, control.name.as_str(), default);
        set_control_value(&mut control.configuration, value);
        out.push(control);
    }
    out
}

pub open spec fn ipa_overlaid(control: Control) -> Control {
    Control { configuration: ipa_overlay_spec(control), ..control }
}

/// Applies the IPA overlay of [`ipa_overlay_spec`] to each control. (A
/// slider whose integer limits give nothing gets nothing from its float
/// reading either: that range is empty at any scale.)
pub fn apply_ipa_overlay_to_controls(controls: Vec<Control>) -> (r: Vec<Control>)
    ensures
        r@.len() == controls@.len(),
        forall|i: int| 0 <= i < r@.len() ==> #[trigger] r@[i] == ipa_overlaid(controls@[i]),
{
    let ghost original = controls@;
    let mut rest = controls;
    let mut out: Vec<Control> = Vec::new();
    while rest.len() > 0
        invariant
            out@.len() + rest@.len() == original.len(),
            rest@ == original.skip(out@.len() as int),
            forall|i: int| 0 <= i < out@.len() ==> #[trigger] out@[i] == ipa_overlaid(original[i]),
        decreases rest@.len(),
    {
        let mut control = rest.remove(0);
        let ghost k = out@.len() as int;
        proof {
            assert(control == original[k]);
            assert(rest@ =~= original.skip(k + 1));
        }
        if let Some(default) = ipa_bool_default(control.name.as_str()) {
            if let ControlType::Bool(bool_control) = &mut control.configuration {
                bool_control.default = default;
            }
        }
        let limits = match &control.configuration {
            ControlType::Slider(slider) => integer_slider_limits(
                control.name.as_str(),
                slider.min,
                slider.max,
                slider.default,
            ),
            _ => None,
        };
        if let Some((min, max, default)) = limits {
            if let ControlType::Slider(slider) = &mut control.configuration {
                slider.min = min;
                slider.max = max;
                slider.default = default;
            }
        }
        out.push(control);
    }
    out
}

/// The entries of `s` that are gates (`*-mode`, `*-enable`), in order.
pub open spec fn gate_entries(s: Seq<PendingValue>) -> Seq<PendingValue>
    decreases s.len(),
{
    if s.len() == 0 {
        Seq::empty()
    } else if is_mode_like(s.last().property@) {
        gate_entries(s.drop_last()).push(s.last())
    } else {
        gate_entries(s.drop_last())
    }
}

/// The entries of `s` that are not gates, in order.
pub open spec fn value_entries(s: Seq<PendingValue>) -> Seq<PendingValue>
    decreases s.len(),
{
    if s.len() == 0 {
        Seq::empty()
    } else if !is_mode_like(s.last().property@) {
        value_entries(s.drop_last()).push(s.last())
    } else {
        value_entries(s.drop_last())
    }
}

/// The order in which queued values are applied: gates first so that the
/// values they gate take effect, each group in the order given.
pub open spec fn apply_order_spec(s: Seq<PendingValue>) -> Seq<PendingValue> {
    gate_entries(s) + value_entries(s)
}

pub fn apply_order(values: Vec<PendingValue>) -> (r: Vec<PendingValue>)
    ensures
        r@ == apply_order_spec(values@),
{
    let ghost original = values@;
    let mut rest = values;
    let mut gates: Vec<PendingValue> = Vec::new();
    let mut others: Vec<PendingValue> = Vec::new();
    let ghost mut done: int = 0;
    while rest.len() > 0
        invariant
            0 <= done <= original.len(),
            rest@ == original.skip(done),
            gates@ == gate_entries(original.take(done)),
            others@ == value_entries(original.take(done)),
        decreases rest@.len(),
    {
        let entry = rest.remove(0);
        proof {
            assert(entry == original[done]);
            assert(rest@ =~= original.skip(done + 1));
            assert(original.take(done + 1).drop_last() =~= original.take(done));
            assert(original.take(done + 1).last() == entry);
        }
        if is_mode_like_property(entry.property.as_str()) {
            gates.push(entry);
        } else {
            others.push(entry);
        }
        proof {
            done = done + 1;
        }
    }
    proof {
        assert(original.take(done) =~= original);
    }
    gates.append(&mut others);
    gates
}

/// The values queued for `camera`, in apply order, for a freshly configured
/// source; clears the camera's dirty mark. `None`, with nothing changed,
/// when nothing is queued for it.
pub fn apply_pending_to_element(pending: &mut PendingControls, camera: &str) -> (r: Option<Vec<PendingValue>>)
    requires
        old(pending).wf(),
    ensures
        final(pending).wf(),
        final(pending).view().pending == old(pending).view().pending,
        match r {
            None => !old(pending).view().pending.contains_key(camera@) && final(pending).view() == old(
                pending,
            ).view(),
            Some(values) => old(pending).view().pending.contains_key(camera@) && exists|s: Seq<PendingValue>|
                sorted_entries(s) && entries_map(s) == old(pending).view().pending[camera@] && values@
                    == apply_order_spec(s) && final(pending).view().dirty == old(pending).view().dirty.remove(
                    camera@,
                ) && final(pending).view().any_dirty == !final(pending).view().dirty.is_empty(),
        },
{
    let values = match pending.copy_pending(camera) {
        Some(values) => values,
        None => return None,
    };
    let ghost s = values@;
    pending.clear_dirty(camera);
    let ordered = apply_order(values);
    assert(sorted_entries(s) && entries_map(s) == old(pending).view().pending[camera@] && ordered@
        == apply_order_spec(s));
    Some(ordered)
}

/// The dirty values of `camera`, in apply order, for the streaming side;
/// `None`, with nothing changed, when no camera is dirty or this one is not.
pub fn apply_dirty_pending_to_element(pending: &mut PendingControls, camera: &str) -> (r: Option<
    Vec<PendingValue>,
>)
    requires
        old(pending).wf(),
    ensures
        final(pending).wf(),
        final(pending).view().pending == old(pending).view().pending,
        !old(pending).view().dirty.contains(camera@) ==> r is None && final(pending).view() == old(
            pending,
        ).view(),
        old(pending).view().dirty.contains(camera@) ==> {
            &&& final(pending).view().dirty == old(pending).view().dirty.remove(camera@)
            &&& final(pending).view().any_dirty == !final(pending).view().dirty.is_empty()
            &&& match r {
                Some(values) => old(pending).view().pending.contains_key(camera@) && exists|s: Seq<PendingValue>|
                    sorted_entries(s) && entries_map(s) == old(pending).view().pending[camera@]
                        && values@ == apply_order_spec(s),
                None => !old(pending).view().pending.contains_key(camera@),
            }
        },
{
    proof {
        pending.lemma_any_dirty();
    }
    if !pending.any_dirty() {
        return None;
    }
    match pending.take_dirty_pending(camera) {
        Some(values) => {
            let ghost s = values@;
            let ordered = apply_order(values);
            assert(sorted_entries(s) && entries_map(s) == old(pending).view().pending[camera@]
                && ordered@ == apply_order_spec(s));
            Some(ordered)
        },
        None => None,
    }
}

/// The listed form of a control of the source's schema: applied between
/// requests (so it never needs a restart and is mutable while playing), with
/// the IPA overlay and its current value.
pub open spec fn listed_spec(p: PendingMap, camera: Seq<char>, control: Control) -> Control {
    overlay_spec(
        p,
        camera,
        ipa_overlaid(Control { requires_restart: false, mutable_in_playing: true, ..control }),
    )
}

/// The controls listed for `camera` from `schema`, as [`list_controls`]
/// lists them.
pub open spec fn listed_controls(p: PendingMap, camera: Seq<char>, schema: Seq<Control>) -> Seq<Control> {
    schema.map_values(|c: Control| listed_spec(p, camera, c))
}

/// The index of the first control from `k` on whose id is `id`.
pub open spec fn first_with_id(controls: Seq<Control>, id: u64, k: int) -> Option<int>
    decreases controls.len() - k,
{
    if k < 0 || k >= controls.len() {
        None
    } else if controls[k].id == id {
        Some(k)
    } else {
        first_with_id(controls, id, k + 1)
    }
}

/// The first control listed for `camera` with id `id`.
pub open spec fn found_control(p: PendingMap, camera: Seq<char>, schema: Seq<Control>, id: u64) -> Option<Control> {
    match first_with_id(listed_controls(p, camera, schema), id, 0) {
        Some(k) => Some(listed_controls(p, camera, schema)[k]),
        None => None,
    }
}

/// Why a control could not be read.
#[derive(Clone, Copy, Debug, PartialEq, Eq, Structural)]
pub enum ControlLookupError {
    /// No control of that id is listed for the camera.
    NotFound,
}

proof fn lemma_first_with_id(controls: Seq<Control>, id: u64, k: int)
    requires
        0 <= k <= controls.len(),
    ensures
        first_with_id(controls, id, k) matches Some(j) ==> k <= j < controls.len() && controls[j].id == id && forall|m: int|
            k <= m < j ==> (#[trigger] controls[m]).id != id,
        first_with_id(controls, id, k) is None ==> forall|m: int| k <= m < controls.len() ==> (#[trigger] controls[m]).id != id,
    decreases controls.len() - k,
{
    if k < controls.len() && controls[k].id != id {
        lemma_first_with_id(controls, id, k + 1);
    }
}

proof fn lemma_first_with_id_at(controls: Seq<Control>, id: u64, k: int, j: int)
    requires
        0 <= k <= j < controls.len(),
        controls[j].id == id,
        forall|m: int| k <= m < j ==> (#[trigger] controls[m]).id != id,
    ensures
        first_with_id(controls, id, k) == Some(j),
    decreases j - k,
{
    if k < j {
        lemma_first_with_id_at(controls, id, k + 1, j);
    }
}

/// The first control listed for `camera` whose id is `control_id`; `None`
/// when none is (an empty schema lists none).
pub fn find_control(pending: &PendingControls, camera: &str, schema: Vec<Control>, control_id: u64) -> (r: Option<Control>)
    requires
        pending.wf(),
    ensures
        r == found_control(pending.view().pending, camera@, schema@, control_id),
{
    let ghost listed = listed_controls(pending.view().pending, camera@, schema@);
    let mut list = list_controls(pending, camera, schema);
    proof {
        assert(list@ =~= listed);
    }
    let mut i: usize = 0;
    while i < list.len()
        invariant
            list@ == listed,
            listed == listed_controls(pending.view().pending, camera@, schema@),
            i <= list@.len(),
            forall|m: int| 0 <= m < i ==> (#[trigger] list@[m]).id != control_id,
        decreases list@.len() - i,
    {
        if list[i].id == control_id {
            proof {
                lemma_first_with_id_at(listed, control_id, 0, i as int);
            }
            let ghost before = list@;
            let c = list.remove(i);
            proof {
                assert(c == before[i as int]);
                assert(before == listed);
                assert(first_with_id(listed, control_id, 0) == Some(i as int));
            }
            return Some(c);
        }
        i = i + 1;
    }
    proof {
        lemma_first_with_id(listed, control_id, 0);
        if let Some(j) = first_with_id(listed, control_id, 0) {
            assert(listed[j].id == control_id);
        }
    }
    None
}

/// The current value of the control of id `control_id` listed for
/// `camera`: its pending value, else its listed default; `NotFound` when
/// no such control is listed.
pub fn control_value_by_id(pending: &PendingControls, camera: &str, schema: Vec<Control>, control_id: u64) -> (r: Result<
    i64,
    ControlLookupError,
>)
    requires
        pending.wf(),
    ensures
        r == match found_control(pending.view().pending, camera@, schema@, control_id) {
            Some(c) => Ok(value_of(c.configuration)),
            None => Err(ControlLookupError::NotFound),
        },
{
    match find_control(pending, camera, schema, control_id) {
        Some(control) => Ok(control_current_value(&control.configuration)),
        None => Err(ControlLookupError::NotFound),
    }
}

/// A control found by id has that id and is one of the controls listed for
/// the camera; none is found exactly when no listed control has the id. Its
/// value is the one pending for it, else its listed default.
pub proof fn law_found_control_is_listed(p: PendingMap, camera: Seq<char>, schema: Seq<Control>, id: u64)
    ensures
        found_control(p, camera, schema, id) matches Some(c) ==> {
            &&& c.id == id
            &&& listed_controls(p, camera, schema).contains(c)
            &&& value_of(c.configuration) == current_value_spec(p, camera, c.name@, default_of(c.configuration))
        },
        found_control(p, camera, schema, id) is None <==> forall|k: int|
            0 <= k < schema.len() ==> (#[trigger] listed_controls(p, camera, schema)[k]).id != id,
{
    let listed = listed_controls(p, camera, schema);
    lemma_first_with_id(listed, id, 0);
    if let Some(j) = first_with_id(listed, id, 0) {
        let c = listed[j];
        assert(listed.contains(c));
        let base = ipa_overlaid(Control { requires_restart: false, mutable_in_playing: true, ..schema[j] });
        assert(c == overlay_spec(p, camera, base));
        let v = current_value_spec(p, camera, base.name@, default_of(base.configuration));
        assert(c.configuration == with_value(base.configuration, v));
        assert(value_of(c.configuration) == v);
        assert(default_of(c.configuration) == default_of(base.configuration));
    }
}

/// The controls of `camera` from the source's control schema.
pub fn list_controls(pending: &PendingControls, camera: &str, schema: Vec<Control>) -> (r: Vec<Control>)
    requires
        pending.wf(),
    ensures
        r@.len() == schema@.len(),
        forall|i: int| 0 <= i < r@.len() ==> #[trigger] r@[i] == listed_spec(pending.view().pending, camera@, schema@[i]),
{
    let ghost original = schema@;
    let mut rest = schema;
    let mut flagged: Vec<Control> = Vec::new();
    while rest.len() > 0
        invariant
            flagged@.len() + rest@.len() == original.len(),
            rest@ == original.skip(flagged@.len() as int),
            forall|i: int| 0 <= i < flagged@.len() ==> #[trigger] flagged@[i] == (Control {
                requires_restart: false,
                mutable_in_playing: true,
                ..original[i]
            }),
        decreases rest@.len(),
    {
        let mut control = rest.remove(0);
        let ghost k = flagged@.len() as int;
        proof {
            assert(control == original[k]);
            assert(rest@ =~= original.skip(k + 1));
        }
        control.requires_restart = false;
        control.mutable_in_playing = true;
        flagged.push(control);
    }
    let overlaid = apply_ipa_overlay_to_controls(flagged);
    overlay_current_values(pending, camera, overlaid)
}

proof fn lemma_enum_store_elsewhere(
    p: PendingMap,
    info: ElementControlInfo,
    camera: Seq<char>,
    property: Seq<char>,
    other: Seq<char>,
    nick: Seq<char>,
)
    requires
        other != property,
    ensures
        lookup_spec(store_enum_nick_spec(p, info, camera, other, nick), camera, property) == lookup_spec(
            p,
            camera,
            property,
        ),
{
}

proof fn lemma_if_present_elsewhere(
    p: PendingMap,
    info: ElementControlInfo,
    camera: Seq<char>,
    property: Seq<char>,
    other: Seq<char>,
    value: i64,
)
    requires
        other != property,
    ensures
        lookup_spec(store_if_present_spec(p, info, camera, other, value), camera, property) == lookup_spec(
            p,
            camera,
            property,
        ),
{
}

/// The value set for a control is what reading it back gives: the gates
/// queued along with it never overwrite the control itself.
pub proof fn law_set_control_reads_back(
    p: PendingMap,
    info: Option<ElementControlInfo>,
    camera: Seq<char>,
    property: Seq<char>,
    value: i64,
)
    ensures
        lookup_spec(set_control_spec(p, info, camera, property, value), camera, property) == Some(value),
{
    let p1 = store_spec(p, camera, property, value);
    assert(lookup_spec(p1, camera, property) == Some(value));
    match info {
        Some(i) => {
            reveal_strlit("-mode");
            reveal_strlit("manual");
            reveal_strlit("auto");
            reveal_strlit("analogue-gain-mode");
            reveal_strlit("ae-enable");
            reveal_strlit("exposure-time");
            reveal_strlit("exposure-value");
            reveal_strlit("exposure-time-mode");
            let p2 = companion_spec(p1, i, camera, property);
            match companion_mode_spec(property) {
                Some(mode) => {
                    assert(mode.len() == property.len() + 5);
                    lemma_enum_store_elsewhere(p1, i, camera, property, mode, "manual"@);
                },
                None => {},
            }
            assert(lookup_spec(p2, camera, property) == Some(value));
            let q1 = match analogue_gain_mode_nick_spec(property) {
                Some(nick) => store_enum_nick_spec(p2, i, camera, "analogue-gain-mode"@, nick),
                None => p2,
            };
            match analogue_gain_mode_nick_spec(property) {
                Some(nick) => {
                    assert(property.len() != 18);
                    lemma_enum_store_elsewhere(p2, i, camera, property, "analogue-gain-mode"@, nick);
                },
                None => {},
            }
            let q2 = if property == "exposure-time"@ {
                store_if_present_spec(q1, i, camera, "ae-enable"@, 0)
            } else {
                q1
            };
            if property == "exposure-time"@ {
                lemma_if_present_elsewhere(q1, i, camera, property, "ae-enable"@, 0);
            }
            assert(lookup_spec(q2, camera, property) == Some(value));
            if property == "exposure-time-mode"@ && enum_value_spec(i, property, "manual"@) == Some(value) {
                assert(property.len() == 18);
                assert(property != "analogue-gain-mode"@) by {
                    assert(property[0] != "analogue-gain-mode"@[0]);
                }
                assert(property != "ae-enable"@);
                let q3 = store_enum_nick_spec(q2, i, camera, "analogue-gain-mode"@, "manual"@);
                lemma_enum_store_elsewhere(q2, i, camera, property, "analogue-gain-mode"@, "manual"@);
                lemma_if_present_elsewhere(q3, i, camera, property, "ae-enable"@, 0);
            }
        },
        None => {},
    }
}

/// After a control is set, the streaming side's next take of the camera
/// hands out its queued values, the value set among them.
pub proof fn law_set_control_then_take(
    v: PendingView,
    info: Option<ElementControlInfo>,
    camera: Seq<char>,
    property: Seq<char>,
    value: i64,
)
    ensures
        ({
            let after = PendingView {
                pending: set_control_spec(v.pending, info, camera, property, value),
                dirty: v.dirty.insert(camera),
                any_dirty: true,
            };
            &&& taken_spec(after, camera) == Some(map_pending_of(after.pending, camera))
            &&& lookup_spec(after.pending, camera, property) == Some(value)
        }),
{
    law_set_control_reads_back(v.pending, info, camera, property, value);
    let after = set_control_spec(v.pending, info, camera, property, value);
    assert(after.contains_key(camera));
}


proof fn lemma_split_entries(s: Seq<PendingValue>)
    ensures
        forall|i: int| 0 <= i < gate_entries(s).len() ==> is_mode_like(#[trigger] gate_entries(s)[i].property@),
        forall|i: int| 0 <= i < value_entries(s).len() ==> !is_mode_like(#[trigger] value_entries(s)[i].property@),
        gate_entries(s).to_multiset().add(value_entries(s).to_multiset()) == s.to_multiset(),
    decreases s.len(),
{
    broadcast use vstd::seq_lib::group_to_multiset_ensures;
    broadcast use vstd::multiset::group_multiset_axioms;

    if s.len() == 0 {
        assert(gate_entries(s).to_multiset().add(value_entries(s).to_multiset()) =~= s.to_multiset());
    } else {
        lemma_split_entries(s.drop_last());
        assert(s.drop_last().push(s.last()) =~= s);
        assert(gate_entries(s).to_multiset().add(value_entries(s).to_multiset()) =~= s.to_multiset());
    }
}

proof fn lemma_groups_sorted(s: Seq<PendingValue>)
    requires
        sorted_entries(s),
    ensures
        sorted_entries(gate_entries(s)),
        sorted_entries(value_entries(s)),
        forall|i: int| 0 <= i < gate_entries(s).len() ==> exists|k: int| 0 <= k < s.len() && #[trigger] gate_entries(s)[i] == s[k],
        forall|i: int| 0 <= i < value_entries(s).len() ==> exists|k: int| 0 <= k < s.len() && #[trigger] value_entries(s)[i] == s[k],
    decreases s.len(),
{
    if s.len() > 0 {
        let rest = s.drop_last();
        assert forall|i: int, j: int| 0 <= i < j < rest.len() implies seq_lt(
            #[trigger] rest[i].property@,
            #[trigger] rest[j].property@,
        ) by {
            assert(rest[i] == s[i] && rest[j] == s[j]);
        }
        lemma_groups_sorted(rest);
        let g0 = gate_entries(rest);
        let w0 = value_entries(rest);
        let g = gate_entries(s);
        let w = value_entries(s);
        assert forall|i: int| 0 <= i < g.len() implies exists|k: int| 0 <= k < s.len() && #[trigger] g[i] == s[k] by {
            if i < g0.len() {
                let k = choose|k: int| 0 <= k < rest.len() && #[trigger] g0[i] == rest[k];
                assert(g[i] == g0[i] && rest[k] == s[k]);
            } else {
                assert(g[i] == s[s.len() - 1]);
            }
        }
        assert forall|i: int| 0 <= i < w.len() implies exists|k: int| 0 <= k < s.len() && #[trigger] w[i] == s[k] by {
            if i < w0.len() {
                let k = choose|k: int| 0 <= k < rest.len() && #[trigger] w0[i] == rest[k];
                assert(w[i] == w0[i] && rest[k] == s[k]);
            } else {
                assert(w[i] == s[s.len() - 1]);
            }
        }
        assert forall|i: int, j: int| 0 <= i < j < g.len() implies seq_lt(
            #[trigger] g[i].property@,
            #[trigger] g[j].property@,
        ) by {
            if j < g0.len() {
                assert(g[i] == g0[i] && g[j] == g0[j]);
            } else {
                let k = choose|k: int| 0 <= k < rest.len() && #[trigger] g0[i] == rest[k];
                assert(g[i] == s[k]);
                assert(g[j] == s[s.len() - 1]);
            }
        }
        assert forall|i: int, j: int| 0 <= i < j < w.len() implies seq_lt(
            #[trigger] w[i].property@,
            #[trigger] w[j].property@,
        ) by {
            if j < w0.len() {
                assert(w[i] == w0[i] && w[j] == w0[j]);
            } else {
                let k = choose|k: int| 0 <= k < rest.len() && #[trigger] w0[i] == rest[k];
                assert(w[i] == s[k]);
                assert(w[j] == s[s.len() - 1]);
            }
        }
    }
}

/// Values queued in ascending property order are applied with each group
/// still ascending: the gates in ascending name order, then the other
/// properties in ascending name order.
pub proof fn law_apply_order_groups_ascending(s: Seq<PendingValue>)
    requires
        sorted_entries(s),
    ensures
        forall|i: int, j: int|
            0 <= i < j < apply_order_spec(s).len() && is_mode_like(
                #[trigger] apply_order_spec(s)[i].property@,
            ) == is_mode_like(#[trigger] apply_order_spec(s)[j].property@) ==> seq_lt(
                apply_order_spec(s)[i].property@,
                apply_order_spec(s)[j].property@,
            ),
{
    lemma_split_entries(s);
    lemma_groups_sorted(s);
    let r = apply_order_spec(s);
    let g = gate_entries(s);
    let w = value_entries(s);
    assert forall|i: int, j: int|
        0 <= i < j < r.len() && is_mode_like(#[trigger] r[i].property@) == is_mode_like(
            #[trigger] r[j].property@,
        ) implies seq_lt(r[i].property@, r[j].property@) by {
        if j < g.len() {
            assert(r[i] == g[i] && r[j] == g[j]);
        } else if i >= g.len() {
            assert(r[i] == w[i - g.len()] && r[j] == w[j - g.len()]);
        } else {
            assert(r[i] == g[i] && r[j] == w[j - g.len()]);
        }
    }
}

/// Dirty values are applied gates first: no gate comes after a value
/// property, and every queued value is applied exactly once.
pub proof fn law_apply_order_gates_first(s: Seq<PendingValue>)
    ensures
        apply_order_spec(s).to_multiset() == s.to_multiset(),
        apply_order_spec(s).len() == s.len(),
        forall|i: int, j: int|
            0 <= i < j < s.len() && is_mode_like(#[trigger] apply_order_spec(s)[j].property@) ==> is_mode_like(
                #[trigger] apply_order_spec(s)[i].property@,
            ),
{
    broadcast use vstd::seq_lib::group_to_multiset_ensures;

    lemma_split_entries(s);
    vstd::seq_lib::lemma_multiset_commutative(gate_entries(s), value_entries(s));
    let r = apply_order_spec(s);
    let g = gate_entries(s);
    let w = value_entries(s);
    assert(r.to_multiset().len() == r.len());
    assert(s.to_multiset().len() == s.len());
    assert(r.len() == g.len() + w.len());
    assert forall|i: int, j: int|
        0 <= i < j < s.len() && is_mode_like(#[trigger] r[j].property@) implies is_mode_like(
            #[trigger] r[i].property@,
        ) by {
        if j >= g.len() {
            assert(r[j] == w[j - g.len()]);
        }
        assert(r[i] == g[i]);
    }
}


/// Manual exposure turns automatic exposure off: setting exposure time, or
/// setting the exposure-time mode to the element's `manual` enumerator, on
/// an element that has `ae-enable` leaves `ae-enable` queued as 0 for that
/// camera. The manual exposure-time mode also queues the analogue gain mode
/// as manual when the element has that enumerator, and keeps the value set.
pub proof fn law_manual_exposure_disables_ae(
    p: PendingMap,
    info: ElementControlInfo,
    camera: Seq<char>,
    value: i64,
)
    ensures
        has_property_spec(info, "ae-enable"@) ==> lookup_spec(
            set_control_spec(p, Some(info), camera, "exposure-time"@, value),
            camera,
            "ae-enable"@,
        ) == Some(0i64),
        has_property_spec(info, "ae-enable"@) && enum_value_spec(info, "exposure-time-mode"@, "manual"@) == Some(
            value,
        ) ==> lookup_spec(set_control_spec(p, Some(info), camera, "exposure-time-mode"@, value), camera, "ae-enable"@)
            == Some(0i64),
        enum_value_spec(info, "exposure-time-mode"@, "manual"@) == Some(value) ==> lookup_spec(
            set_control_spec(p, Some(info), camera, "exposure-time-mode"@, value),
            camera,
            "exposure-time-mode"@,
        ) == Some(value),
        enum_value_spec(info, "exposure-time-mode"@, "manual"@) == Some(value) && enum_value_spec(
            info,
            "analogue-gain-mode"@,
            "manual"@,
        ) is Some ==> lookup_spec(
            set_control_spec(p, Some(info), camera, "exposure-time-mode"@, value),
            camera,
            "analogue-gain-mode"@,
        ) == enum_value_spec(info, "analogue-gain-mode"@, "manual"@),
{
    reveal_strlit("ae-enable");
    reveal_strlit("exposure-time");
    reveal_strlit("exposure-time-mode");
    reveal_strlit("analogue-gain-mode");
    reveal_strlit("exposure-value");
    assert(analogue_gain_mode_nick_spec("exposure-time-mode"@) is None) by {
        assert("exposure-time-mode"@.len() != "exposure-time"@.len());
        assert("exposure-time-mode"@.len() != "exposure-value"@.len());
    }
    assert("analogue-gain-mode"@ != "ae-enable"@) by {
        assert("analogue-gain-mode"@.len() != "ae-enable"@.len());
    }
}


/// Setting a value property also sets its gate: on an element that lists a
/// `manual` enumerator for `{property}-mode`, that gate is queued as the
/// manual value (the analogue gain gate excepted, which the exposure rules
/// decide). Setting the exposure value leaves the analogue gain automatic
/// when the element lists that enumerator.
pub proof fn law_value_property_sets_its_gate(
    p: PendingMap,
    info: ElementControlInfo,
    camera: Seq<char>,
    property: Seq<char>,
    value: i64,
)
    ensures
        !is_mode_like(property) && property + "-mode"@ != "analogue-gain-mode"@ && property + "-mode"@ != "ae-enable"@
            && enum_value_spec(info, property + "-mode"@, "manual"@) is Some ==> lookup_spec(
            set_control_spec(p, Some(info), camera, property, value),
            camera,
            property + "-mode"@,
        ) == enum_value_spec(info, property + "-mode"@, "manual"@),
        enum_value_spec(info, "analogue-gain-mode"@, "auto"@) is Some ==> lookup_spec(
            set_control_spec(p, Some(info), camera, "exposure-value"@, value),
            camera,
            "analogue-gain-mode"@,
        ) == enum_value_spec(info, "analogue-gain-mode"@, "auto"@),
{
    reveal_strlit("-mode");
    reveal_strlit("manual");
    reveal_strlit("auto");
    reveal_strlit("analogue-gain-mode");
    reveal_strlit("ae-enable");
    reveal_strlit("exposure-time");
    reveal_strlit("exposure-value");
    reveal_strlit("exposure-time-mode");
    reveal_strlit("-enable");
    assert(!is_mode_like("exposure-value"@)) by {
        let name = "exposure-value"@;
        assert(name.subrange(9, 14)[0] == 'v');
        assert(name.subrange(7, 14)[0] == 'e');
        assert("-mode"@[0] == '-');
        assert("-enable"@[0] == '-');
    }
}

} // verus!
