//! The controls of a V4L2 camera, built from the control descriptions the
//! device reports and the values read for them.
use vstd::prelude::*;
use crate::controls::{
    set_control_value, with_value, Control, ControlBool, ControlMenu, ControlOption, ControlSlider,
    ControlState, ControlType,
};

verus! {

/// Types of V4L2 controls, as the device reports them.
#[derive(Clone, Copy, Debug, PartialEq, Eq, Structural)]
pub enum V4lControlKind {
    Integer,
    Boolean,
    Menu,
    Button,
    Integer64,
    /// A heading that groups the controls after it; not a control.
    CtrlClass,
    String,
    Bitmask,
    IntegerMenu,
    /// Any other type.
    Other,
}

/// One entry of a menu control: its index and its label (an integer menu's
/// value written in decimal).
pub struct V4lMenuItem {
    pub index: u32,
    pub label: String,
}

/// A control as the device describes it.
pub struct V4lControlDescription {
    pub id: u32,
    pub kind: V4lControlKind,
    pub name: String,
    pub minimum: i64,
    pub maximum: i64,
    pub step: i64,
    pub default: i64,
    pub is_disabled: bool,
    pub is_inactive: bool,
    pub items: Option<Vec<V4lMenuItem>>,
}

/// Whether the control's current value is read: not for class headings,
/// which refuse access.
pub open spec fn reads_value(kind: V4lControlKind) -> bool {
    kind != V4lControlKind::CtrlClass
}

pub fn needs_value(description: &V4lControlDescription) -> (r: bool)
    ensures
        r == reads_value(description.kind),
{
    match description.kind {
        V4lControlKind::CtrlClass => false,
        _ => true,
    }
}

/// The menu options of a list of menu items.
pub open spec fn options_match(options: Seq<ControlOption>, items: Seq<V4lMenuItem>) -> bool {
    &&& options.len() == items.len()
    &&& forall|i: int|
        0 <= i < options.len() ==> (#[trigger] options[i]).name@ == items[i].label@ && options[i].value
            == items[i].index as i64
}

/// The control built from `description` and the value read for it: a
/// boolean, a slider for the integer types, a menu for the menu types that
/// list their items; `None` for class headings, for a value that could not
/// be read, and for the other types.
pub open spec fn control_matches(r: Option<Control>, description: V4lControlDescription, value: Option<i64>) -> bool {
    let d = description;
    match (d.kind, value) {
        (V4lControlKind::CtrlClass, _) => r is None,
        (_, None) => r is None,
        (V4lControlKind::Boolean, Some(v)) => r matches Some(c) && c.configuration == ControlType::Bool(
            ControlBool { default: d.default, value: v },
        ) && c.cpp_type@ == "bool"@ && common_fields(c, d),
        (V4lControlKind::Integer, Some(v)) | (V4lControlKind::Integer64, Some(v)) => r matches Some(c)
            && c.configuration == ControlType::Slider(
            ControlSlider { default: d.default, value: v, step: d.step, max: d.maximum, min: d.minimum },
        ) && c.cpp_type@ == "int64"@ && common_fields(c, d),
        (V4lControlKind::Menu, Some(v)) | (V4lControlKind::IntegerMenu, Some(v)) => match d.items {
            Some(items) => r matches Some(c) && (c.configuration matches ControlType::Menu(m) && m.default
                == d.default && m.value == v && options_match(m.options@, items@)) && c.cpp_type@ == "int32"@
                && common_fields(c, d),
            None => r is None,
        },
        _ => r is None,
    }
}

/// The fields every control built from a description has.
pub open spec fn common_fields(c: Control, d: V4lControlDescription) -> bool {
    &&& c.name@ == d.name@
    &&& c.id == d.id as u64
    &&& c.state == ControlState { is_disabled: d.is_disabled, is_inactive: d.is_inactive }
    &&& c.element@ == Seq::<char>::empty()
    &&& c.nick@ == Seq::<char>::empty()
    &&& !c.mutable_in_playing
    &&& !c.requires_restart
    &&& c.blurb is None
    &&& c.docs_url is None
    &&& c.plugin_name is None
}

fn menu_options(items: &Vec<V4lMenuItem>) -> (r: Vec<ControlOption>)
    ensures
        options_match(r@, items@),
{
    let mut options: Vec<ControlOption> = Vec::new();
    let mut i: usize = 0;
    while i < items.len()
        invariant
            i <= items@.len(),
            options@.len() == i,
            forall|k: int|
                0 <= k < i ==> (#[trigger] options@[k]).name@ == items@[k].label@ && options@[k].value
                    == items@[k].index as i64,
        decreases items@.len() - i,
    {
        options.push(ControlOption { name: items[i].label.clone(), value: items[i].index as i64 });
        i = i + 1;
    }
    options
}

fn base_control(description: &V4lControlDescription, cpp_type: &str, configuration: ControlType) -> (r: Control)
    ensures
        common_fields(r, *description),
        r.cpp_type@ == cpp_type@,
        r.configuration == configuration,
{
    Control {
        name: description.name.clone(),
        element: String::new(),
        cpp_type: cpp_type.to_string(),
        id: description.id as u64,
        state: ControlState { is_disabled: description.is_disabled, is_inactive: description.is_inactive },
        configuration,
        mutable_in_playing: false,
        requires_restart: false,
        nick: String::new(),
        blurb: None,
        docs_url: None,
        plugin_name: None,
    }
}

/// The control `description` gives with the value read for it (`None` when
/// it could not be read).
pub fn control_from_description(description: &V4lControlDescription, value: Option<i64>) -> (r: Option<Control>)
    ensures
        control_matches(r, *description, value),
{
    if !needs_value(description) {
        return None;
    }
    let value = match value {
        Some(v) => v,
        None => return None,
    };
    match description.kind {
        V4lControlKind::Boolean => Some(
            base_control(
                description,
                "bool",
                ControlType::Bool(ControlBool { default: description.default, value }),
            ),
        ),
        V4lControlKind::Integer | V4lControlKind::Integer64 => Some(
            base_control(
                description,
                "int64",
                ControlType::Slider(
                    ControlSlider {
                        default: description.default,
                        value,
                        step: description.step,
                        max: description.maximum,
                        min: description.minimum,
                    },
                ),
            ),
        ),
        V4lControlKind::Menu | V4lControlKind::IntegerMenu => match &description.items {
            Some(items) => {
                let options = menu_options(items);
                Some(
                    base_control(
                        description,
                        "int32",
                        ControlType::Menu(ControlMenu { default: description.default, value, options }),
                    ),
                )
            },
            None => None,
        },
        _ => None,
    }
}

/// The controls of a device: one per description that gives a control,
/// in order; `values[i]` is the value read for `descriptions[i]`.
pub fn controls_from_descriptions(descriptions: &Vec<V4lControlDescription>, values: &Vec<Option<i64>>) -> (r: Vec<
    Control,
>)
    requires
        values@.len() == descriptions@.len(),
    ensures
        exists|picked: Seq<Option<Control>>|
            {
                &&& picked.len() == descriptions@.len()
                &&& forall|i: int|
                    0 <= i < picked.len() ==> control_matches(#[trigger] picked[i], descriptions@[i], values@[i])
                &&& r@ == somes(picked)
            },
{
    let mut controls: Vec<Control> = Vec::new();
    let ghost mut picked: Seq<Option<Control>> = Seq::empty();
    let mut i: usize = 0;
    while i < descriptions.len()
        invariant
            values@.len() == descriptions@.len(),
            i <= descriptions@.len(),
            picked.len() == i,
            forall|k: int| 0 <= k < i ==> control_matches(#[trigger] picked[k], descriptions@[k], values@[k]),
            controls@ == somes(picked),
        decreases descriptions@.len() - i,
    {
        let built = control_from_description(&descriptions[i], values[i]);
        let ghost before = picked;
        proof {
            picked = picked.push(built);
            assert(picked.drop_last() =~= before);
            assert(picked.last() == built);
        }
        match built {
            Some(control) => {
                controls.push(control);
            },
            None => {},
        }
        i = i + 1;
    }
    controls
}

/// The controls among `s`, in order.
pub open spec fn somes(s: Seq<Option<Control>>) -> Seq<Control>
    decreases s.len(),
{
    if s.len() == 0 {
        Seq::empty()
    } else {
        match s.last() {
            Some(c) => somes(s.drop_last()).push(c),
            None => somes(s.drop_last()),
        }
    }
}

/// Controls known before, with the values just read: each control read
/// successfully takes its new value, the others keep theirs.
pub fn refresh_control_values(controls: &mut Vec<Control>, values: &Vec<Option<i64>>)
    requires
        values@.len() == old(controls)@.len(),
    ensures
        final(controls)@.len() == old(controls)@.len(),
        forall|i: int|
            0 <= i < final(controls)@.len() ==> (#[trigger] final(controls)@[i]) == match values@[i] {
                Some(v) => Control { configuration: with_value(old(controls)@[i].configuration, v), ..old(controls)@[i] },
                None => old(controls)@[i],
            },
{
    let ghost original = controls@;
    let mut rest: Vec<Control> = Vec::new();
    std::mem::swap(controls, &mut rest);
    let ghost mut done: int = 0;
    while rest.len() > 0
        invariant
            values@.len() == original.len(),
            0 <= done <= original.len(),
            rest@ == original.skip(done),
            controls@.len() == done,
            forall|i: int|
                0 <= i < done ==> (#[trigger] controls@[i]) == match values@[i] {
                    Some(v) => Control { configuration: with_value(original[i].configuration, v), ..original[i] },
                    None => original[i],
                },
        decreases rest@.len(),
    {
        let mut control = rest.remove(0);
        proof {
            assert(control == original[done]);
            assert(rest@ =~= original.skip(done + 1));
        }
        let index = controls.len();
        match values[index] {
            Some(v) => set_control_value(&mut control.configuration, v),
            None => {},
        }
        controls.push(control);
        proof {
            done = done + 1;
        }
    }
}

} // verus!
