//! Camera controls: their types, the rules that validate a value against a
//! control, and the property rules of libcamera sources (mode gates, slider
//! limits of the Raspberry Pi IPA).
//!
//! The control API carries `i64` values; float properties are exposed as
//! milli-units (`value * 1000`).
use vstd::prelude::*;
use vstd::string::StringExecFns;
use crate::text::{chars_of, range_eq, str_eq};

verus! {

#[derive(Clone, Copy, Debug, Default, PartialEq, Eq, Structural)]
pub struct ControlState {
    pub is_disabled: bool,
    pub is_inactive: bool,
}

#[derive(Clone, Copy, Debug, Default, PartialEq, Eq, Structural)]
pub struct ControlBool {
    pub default: i64,
    pub value: i64,
}

#[derive(Clone, Copy, Debug, Default, PartialEq, Eq, Structural)]
pub struct ControlSlider {
    pub default: i64,
    pub value: i64,
    pub step: i64,
    pub max: i64,
    pub min: i64,
}

#[derive(Clone, Debug, PartialEq, Eq)]
pub struct ControlOption {
    pub name: String,
    pub value: i64,
}

#[derive(Clone, Debug, PartialEq, Eq)]
pub struct ControlMenu {
    pub default: i64,
    pub value: i64,
    pub options: Vec<ControlOption>,
}

#[derive(Clone, Debug, PartialEq, Eq)]
pub struct ControlFlag {
    pub name: String,
    pub value: i64,
}

#[derive(Clone, Debug, PartialEq, Eq)]
pub struct ControlFlags {
    pub default: i64,
    pub value: i64,
    pub flags: Vec<ControlFlag>,
}

#[derive(Clone, Debug, PartialEq, Eq)]
pub enum ControlType {
    Bool(ControlBool),
    Slider(ControlSlider),
    Menu(ControlMenu),
    Flags(ControlFlags),
}

#[derive(Clone, Debug, PartialEq, Eq)]
pub struct Control {
    pub name: String,
    pub element: String,
    pub cpp_type: String,
    pub id: u64,
    pub state: ControlState,
    pub configuration: ControlType,
    pub mutable_in_playing: bool,
    pub requires_restart: bool,
    pub nick: String,
    pub blurb: Option<String>,
    pub docs_url: Option<String>,
    pub plugin_name: Option<String>,
}

pub open spec fn default_of(configuration: ControlType) -> i64 {
    match configuration {
        ControlType::Bool(c) => c.default,
        ControlType::Slider(c) => c.default,
        ControlType::Menu(c) => c.default,
        ControlType::Flags(c) => c.default,
    }
}

pub open spec fn value_of(configuration: ControlType) -> i64 {
    match configuration {
        ControlType::Bool(c) => c.value,
        ControlType::Slider(c) => c.value,
        ControlType::Menu(c) => c.value,
        ControlType::Flags(c) => c.value,
    }
}

pub fn control_default(configuration: &ControlType) -> (r: i64)
    ensures
        r == default_of(*configuration),
{
    match configuration {
        ControlType::Bool(control) => control.default,
        ControlType::Slider(control) => control.default,
        ControlType::Menu(control) => control.default,
        ControlType::Flags(control) => control.default,
    }
}

pub fn control_current_value(configuration: &ControlType) -> (r: i64)
    ensures
        r == value_of(*configuration),
{
    match configuration {
        ControlType::Bool(control) => control.value,
        ControlType::Slider(control) => control.value,
        ControlType::Menu(control) => control.value,
        ControlType::Flags(control) => control.value,
    }
}

/// `configuration` with its current value set to `value`, all else kept.
pub open spec fn with_value(configuration: ControlType, value: i64) -> ControlType {
    match configuration {
        ControlType::Bool(c) => ControlType::Bool(ControlBool { value, ..c }),
        ControlType::Slider(c) => ControlType::Slider(ControlSlider { value, ..c }),
        ControlType::Menu(c) => ControlType::Menu(ControlMenu { value, ..c }),
        ControlType::Flags(c) => ControlType::Flags(ControlFlags { value, ..c }),
    }
}

pub fn set_control_value(configuration: &mut ControlType, value: i64)
    ensures
        *final(configuration) == with_value(*old(configuration), value),
{
    match configuration {
        ControlType::Bool(bool_control) => bool_control.value = value,
        ControlType::Slider(slider) => slider.value = value,
        ControlType::Menu(menu) => menu.value = value,
        ControlType::Flags(flags) => flags.value = value,
    }
}

/// Why a value is refused for a control.
#[derive(Clone, Copy, Debug, PartialEq, Eq, Structural)]
pub enum ControlValueError {
    Inactive,
    Disabled,
    AboveMaximum,
    BelowMinimum,
    NotAnOption,
    NotBoolean,
    UndefinedFlagBits,
}

/// Bitwise or of the values of all flags.
pub open spec fn flags_mask(flags: Seq<ControlFlag>) -> i64
    decreases flags.len(),
{
    if flags.len() == 0 {
        0
    } else {
        flags_mask(flags.drop_last()) | flags.last().value
    }
}

/// The verdict on setting `value` on `control`: inactive and disabled
/// controls refuse every value; a slider takes values in `[min, max]`; a menu
/// takes the values of its options; a boolean takes 0 and 1; flags take
/// values that set only bits of defined flags.
pub open spec fn validate_spec(control: Control, value: i64) -> Result<(), ControlValueError> {
    if control.state.is_inactive {
        Err(ControlValueError::Inactive)
    } else if control.state.is_disabled {
        Err(ControlValueError::Disabled)
    } else {
        match control.configuration {
            ControlType::Slider(c) => if value > c.max {
                Err(ControlValueError::AboveMaximum)
            } else if value < c.min {
                Err(ControlValueError::BelowMinimum)
            } else {
                Ok(())
            },
            ControlType::Menu(c) => if exists|i: int|
                0 <= i < c.options@.len() && (#[trigger] c.options@[i]).value == value {
                Ok(())
            } else {
                Err(ControlValueError::NotAnOption)
            },
            ControlType::Bool(_) => if value == 0 || value == 1 {
                Ok(())
            } else {
                Err(ControlValueError::NotBoolean)
            },
            ControlType::Flags(c) => if value & !flags_mask(c.flags@) != 0 {
                Err(ControlValueError::UndefinedFlagBits)
            } else {
                Ok(())
            },
        }
    }
}

pub fn validate_control(control: &Control, value: i64) -> (r: Result<(), ControlValueError>)
    ensures
        r == validate_spec(*control, value),
{
    if control.state.is_inactive {
        return Err(ControlValueError::Inactive);
    } else if control.state.is_disabled {
        return Err(ControlValueError::Disabled);
    }
    match &control.configuration {
        ControlType::Slider(c) => {
            if value > c.max {
                return Err(ControlValueError::AboveMaximum);
            } else if value < c.min {
                return Err(ControlValueError::BelowMinimum);
            }
        },
        ControlType::Menu(c) => {
            let mut found = false;
            let mut i: usize = 0;
            while i < c.options.len()
                invariant
                    i <= c.options@.len(),
                    found == (exists|k: int| 0 <= k < i && (#[trigger] c.options@[k]).value == value),
                decreases c.options@.len() - i,
            {
                if c.options[i].value == value {
                    found = true;
                }
                i = i + 1;
            }
            if !found {
                return Err(ControlValueError::NotAnOption);
            }
        },
        ControlType::Bool(_) => {
            if !(value == 0 || value == 1) {
                return Err(ControlValueError::NotBoolean);
            }
        },
        ControlType::Flags(c) => {
            let mut allowed: i64 = 0;
            let mut i: usize = 0;
            while i < c.flags.len()
                invariant
                    i <= c.flags@.len(),
                    allowed == flags_mask(c.flags@.take(i as int)),
                decreases c.flags@.len() - i,
            {
                proof {
                    assert(c.flags@.take(i + 1).drop_last() =~= c.flags@.take(i as int));
                }
                allowed = allowed | c.flags[i].value;
                i = i + 1;
            }
            proof {
                assert(c.flags@.take(i as int) =~= c.flags@);
            }
            if value & !allowed != 0 {
                return Err(ControlValueError::UndefinedFlagBits);
            }
        },
    }
    Ok(())
}

/// The first control of `controls` with id `control_id`.
pub open spec fn first_with_id(controls: Seq<Control>, control_id: u64) -> Option<int> {
    if exists|i: int| 0 <= i < controls.len() && (#[trigger] controls[i]).id == control_id {
        let i = choose|i: int|
            0 <= i < controls.len() && (#[trigger] controls[i]).id == control_id && forall|k: int|
                0 <= k < i ==> (#[trigger] controls[k]).id != control_id;
        Some(i)
    } else {
        None
    }
}

pub fn find_control(controls: &[Control], control_id: u64) -> (r: Option<&Control>)
    ensures
        match first_with_id(controls@, control_id) {
            Some(i) => r == Some(&controls@[i]),
            None => r is None,
        },
{
    let mut i: usize = 0;
    while i < controls.len()
        invariant
            i <= controls@.len(),
            forall|k: int| 0 <= k < i ==> (#[trigger] controls@[k]).id != control_id,
        decreases controls@.len() - i,
    {
        if controls[i].id == control_id {
            proof {
                let j = choose|j: int|
                    0 <= j < controls@.len() && (#[trigger] controls@[j]).id == control_id && forall|
                        k: int,
                    | 0 <= k < j ==> (#[trigger] controls@[k]).id != control_id;
                assert(j == i);
            }
            return Some(&controls[i]);
        }
        i = i + 1;
    }
    None
}

/// Why a control cannot be read.
#[derive(Clone, Copy, Debug, PartialEq, Eq, Structural)]
pub enum ControlLookupError {
    NotFound,
}

/// The current value of the listed control `control_id`.
pub fn control_value_by_id(controls: &[Control], control_id: u64) -> (r: Result<i64, ControlLookupError>)
    ensures
        match first_with_id(controls@, control_id) {
            Some(i) => r == Ok::<i64, ControlLookupError>(value_of(controls@[i].configuration)),
            None => r == Err::<i64, ControlLookupError>(ControlLookupError::NotFound),
        },
{
    match find_control(controls, control_id) {
        Some(control) => Ok(control_current_value(&control.configuration)),
        None => Err(ControlLookupError::NotFound),
    }
}

/// Why a value cannot be written to a control.
#[derive(Clone, Copy, Debug, PartialEq, Eq, Structural)]
pub enum ControlWriteError {
    /// No listed control has the id.
    NotFound,
    /// The control refuses the value.
    Refused(ControlValueError),
}

/// Checks a write of `value` to the listed control `control_id`: the
/// control to write when it exists and accepts the value.
pub fn check_control_write(controls: &[Control], control_id: u64, value: i64) -> (r: Result<
    &Control,
    ControlWriteError,
>)
    ensures
        match first_with_id(controls@, control_id) {
            None => r == Err::<&Control, ControlWriteError>(ControlWriteError::NotFound),
            Some(i) => match validate_spec(controls@[i], value) {
                Ok(_) => r == Ok::<&Control, ControlWriteError>(&controls@[i]),
                Err(e) => r == Err::<&Control, ControlWriteError>(ControlWriteError::Refused(e)),
            },
        },
{
    let control = match find_control(controls, control_id) {
        Some(control) => control,
        None => return Err(ControlWriteError::NotFound),
    };
    match validate_control(control, value) {
        Ok(()) => Ok(control),
        Err(e) => Err(ControlWriteError::Refused(e)),
    }
}

/// The first control of `controls` named `name`.
pub open spec fn first_with_name(controls: Seq<Control>, name: Seq<char>) -> Option<int> {
    if exists|i: int| 0 <= i < controls.len() && (#[trigger] controls[i]).name@ == name {
        let i = choose|i: int|
            0 <= i < controls.len() && (#[trigger] controls[i]).name@ == name && forall|k: int|
                0 <= k < i ==> (#[trigger] controls[k]).name@ != name;
        Some(i)
    } else {
        None
    }
}

/// The id of the first listed control named `name`.
pub fn control_id_by_name(controls: &[Control], name: &str) -> (r: Option<u64>)
    ensures
        match first_with_name(controls@, name@) {
            Some(i) => r == Some(controls@[i].id),
            None => r is None,
        },
{
    let mut i: usize = 0;
    while i < controls.len()
        invariant
            i <= controls@.len(),
            forall|k: int| 0 <= k < i ==> (#[trigger] controls@[k]).name@ != name@,
        decreases controls@.len() - i,
    {
        if str_eq(controls[i].name.as_str(), name) {
            proof {
                let j = choose|j: int|
                    0 <= j < controls@.len() && (#[trigger] controls@[j]).name@ == name@ && forall|k: int|
                        0 <= k < j ==> (#[trigger] controls@[k]).name@ != name@;
                assert(j == i);
            }
            return Some(controls[i].id);
        }
        i = i + 1;
    }
    None
}

/// Property names that gate others: they end in `-mode` or `-enable`.
pub open spec fn is_mode_like(name: Seq<char>) -> bool {
    ||| (name.len() >= 5 && name.subrange(name.len() - 5, name.len() as int) == "-mode"@)
    ||| (name.len() >= 7 && name.subrange(name.len() - 7, name.len() as int) == "-enable"@)
}

pub fn is_mode_like_property(name: &str) -> (r: bool)
    ensures
        r == is_mode_like(name@),
{
    let s = chars_of(name);
    let mode = chars_of("-mode");
    let enable = chars_of("-enable");
    let n = s.len();
    (n >= 5 && range_eq(&s, n - 5, n, &mode)) || (n >= 7 && range_eq(&s, n - 7, n, &enable))
}

/// The `{property}-mode` gate of a property that is not itself a gate.
pub open spec fn companion_mode_spec(property: Seq<char>) -> Option<Seq<char>> {
    if is_mode_like(property) {
        None
    } else {
        Some(property + "-mode"@)
    }
}

pub fn companion_mode_property(property: &str) -> (r: Option<String>)
    ensures
        match r {
            Some(s) => companion_mode_spec(property@) == Some(s@),
            None => companion_mode_spec(property@) is None,
        },
{
    if is_mode_like_property(property) {
        return None;
    }
    Some(property.to_owned().concat("-mode"))
}

/// The `analogue-gain-mode` enumerator that setting `property` implies:
/// shutter freezes the gain, exposure value leaves it automatic.
pub open spec fn analogue_gain_mode_nick_spec(property: Seq<char>) -> Option<Seq<char>> {
    if property == "exposure-time"@ {
        Some("manual"@)
    } else if property == "exposure-value"@ {
        Some("auto"@)
    } else {
        None
    }
}

pub fn analogue_gain_mode_nick_for(property: &str) -> (r: Option<&'static str>)
    ensures
        match r {
            Some(s) => analogue_gain_mode_nick_spec(property@) == Some(s@),
            None => analogue_gain_mode_nick_spec(property@) is None,
        },
{
    if str_eq(property, "exposure-time") {
        Some("manual")
    } else if str_eq(property, "exposure-value") {
        Some("auto")
    } else {
        None
    }
}

/// Default of the boolean IPA controls that are on unless set.
pub open spec fn ipa_bool_default_spec(name: Seq<char>) -> Option<i64> {
    if name == "ae-enable"@ || name == "awb-enable"@ {
        Some(1)
    } else {
        None
    }
}

pub fn ipa_bool_default(name: &str) -> (r: Option<i64>)
    ensures
        r == ipa_bool_default_spec(name@),
{
    if str_eq(name, "ae-enable") || str_eq(name, "awb-enable") {
        Some(1)
    } else {
        None
    }
}

/// Slider limits `(min, max, default)` of the Raspberry Pi IPA controls, in
/// API units (milli-units for float controls).
pub open spec fn ipa_slider_limits_spec(name: Seq<char>) -> Option<(i64, i64, i64)> {
    if name == "analogue-gain"@ {
        Some((1000, 16000, 1000))
    } else if name == "brightness"@ {
        Some((-1000i64, 1000i64, 0i64))
    } else if name == "contrast"@ {
        Some((0, 32000, 1000))
    } else if name == "saturation"@ {
        Some((0, 32000, 1000))
    } else if name == "sharpness"@ {
        Some((0, 16000, 1000))
    } else if name == "exposure-value"@ {
        Some((-8000i64, 8000i64, 0i64))
    } else if name == "lens-position"@ {
        Some((0, 32000, 1000))
    } else if name == "gamma"@ {
        Some((100, 10000, 2200))
    } else if name == "digital-gain"@ {
        Some((1000, 4000, 1000))
    } else if name == "exposure-time"@ {
        Some((1, 66_666, 20_000))
    } else if name == "ae-flicker-period"@ {
        Some((100, 1_000_000, 100))
    } else if name == "colour-temperature"@ {
        Some((100, 100_000, 100))
    } else {
        None
    }
}

pub fn ipa_slider_limits(name: &str) -> (r: Option<(i64, i64, i64)>)
    ensures
        r == ipa_slider_limits_spec(name@),
{
    if str_eq(name, "analogue-gain") {
        Some((1000, 16000, 1000))
    } else if str_eq(name, "brightness") {
        Some((-1000i64, 1000i64, 0i64))
    } else if str_eq(name, "contrast") {
        Some((0, 32000, 1000))
    } else if str_eq(name, "saturation") {
        Some((0, 32000, 1000))
    } else if str_eq(name, "sharpness") {
        Some((0, 16000, 1000))
    } else if str_eq(name, "exposure-value") {
        Some((-8000i64, 8000i64, 0i64))
    } else if str_eq(name, "lens-position") {
        Some((0, 32000, 1000))
    } else if str_eq(name, "gamma") {
        Some((100, 10000, 2200))
    } else if str_eq(name, "digital-gain") {
        Some((1000, 4000, 1000))
    } else if str_eq(name, "exposure-time") {
        Some((1, 66_666, 20_000))
    } else if str_eq(name, "ae-flicker-period") {
        Some((100, 1_000_000, 100))
    } else if str_eq(name, "colour-temperature") {
        Some((100, 100_000, 100))
    } else {
        None
    }
}

/// An integer range that spans the whole 32-bit range of its type, as the
/// parameter specifications of unbounded properties do.
pub open spec fn type_wide_spec(min: i64, max: i64) -> bool {
    min <= i32::MIN || max >= i32::MAX
}

/// Slider limits of an integer property: its own range when usable, the IPA
/// overlay when the range is type-wide or empty, its own range again when
/// no overlay exists and the range is not empty.
pub open spec fn integer_slider_limits_spec(name: Seq<char>, min: i64, max: i64, default: i64) -> Option<
    (i64, i64, i64),
> {
    if max > min && !type_wide_spec(min, max) {
        Some((min, max, default))
    } else if ipa_slider_limits_spec(name) is Some {
        ipa_slider_limits_spec(name)
    } else if max > min {
        Some((min, max, default))
    } else {
        None
    }
}

pub fn integer_slider_limits(name: &str, min: i64, max: i64, default: i64) -> (r: Option<
    (i64, i64, i64),
>)
    ensures
        r == integer_slider_limits_spec(name@, min, max, default),
{
    let pspec_usable = max > min && !(min <= i32::MIN as i64 || max >= i32::MAX as i64);
    if pspec_usable {
        return Some((min, max, default));
    }
    if let Some(overlay) = ipa_slider_limits(name) {
        return Some(overlay);
    }
    if max > min {
        Some((min, max, default))
    } else {
        None
    }
}

/// `control` after the IPA overlay: boolean IPA controls get their IPA
/// default, sliders get the limits of [`integer_slider_limits`] when there
/// are any.
pub open spec fn ipa_overlay_spec(control: Control) -> ControlType {
    let c1 = match (ipa_bool_default_spec(control.name@), control.configuration) {
        (Some(d), ControlType::Bool(b)) => ControlType::Bool(ControlBool { default: d, ..b }),
        _ => control.configuration,
    };
    match c1 {
        ControlType::Slider(s) => match integer_slider_limits_spec(control.name@, s.min, s.max, s.default) {
            Some((min, max, default)) => ControlType::Slider(ControlSlider { min, max, default, ..s }),
            None => c1,
        },
        _ => c1,
    }
}


/// An active, enabled slider accepts every value from its minimum to its
/// maximum, both included; a value above the maximum is refused as above
/// it, and one below the minimum (and not above the maximum) as below it.
pub proof fn law_slider_accepts_its_range(control: Control, value: i64)
    requires
        !control.state.is_inactive,
        !control.state.is_disabled,
        control.configuration is Slider,
    ensures
        ({
            let c = control.configuration->Slider_0;
            &&& c.min <= value <= c.max ==> validate_spec(control, value) == Ok::<(), ControlValueError>(())
            &&& value > c.max ==> validate_spec(control, value) == Err::<(), ControlValueError>(
                ControlValueError::AboveMaximum,
            )
            &&& value < c.min && value <= c.max ==> validate_spec(control, value) == Err::<(), ControlValueError>(
                ControlValueError::BelowMinimum,
            )
            &&& validate_spec(control, value) is Ok <==> c.min <= value <= c.max
        }),
{
}

/// An inactive control refuses every value as inactive, and an active but
/// disabled one as disabled, whatever its kind.
pub proof fn law_unavailable_controls_refuse(control: Control, value: i64)
    ensures
        control.state.is_inactive ==> validate_spec(control, value) == Err::<(), ControlValueError>(
            ControlValueError::Inactive,
        ),
        !control.state.is_inactive && control.state.is_disabled ==> validate_spec(control, value) == Err::<
            (),
            ControlValueError,
        >(ControlValueError::Disabled),
{
}


/// An active, enabled control of any other kind accepts exactly: for a
/// menu, the values of its options; for a boolean, 0 and 1; for flags, the
/// values that set no bit outside the defined flags.
pub proof fn law_choice_controls_accept_their_values(control: Control, value: i64)
    requires
        !control.state.is_inactive,
        !control.state.is_disabled,
    ensures
        control.configuration matches ControlType::Menu(m) ==> (validate_spec(control, value) is Ok <==> exists|i: int|
            0 <= i < m.options@.len() && (#[trigger] m.options@[i]).value == value),
        control.configuration matches ControlType::Menu(m) && validate_spec(control, value) is Err ==> validate_spec(
            control,
            value,
        ) == Err::<(), ControlValueError>(ControlValueError::NotAnOption),
        control.configuration is Bool ==> (validate_spec(control, value) is Ok <==> (value == 0 || value == 1)),
        control.configuration is Bool && validate_spec(control, value) is Err ==> validate_spec(control, value) == Err::<
            (),
            ControlValueError,
        >(ControlValueError::NotBoolean),
        control.configuration matches ControlType::Flags(f) ==> (validate_spec(control, value) is Ok <==> value
            & !flags_mask(f.flags@) == 0),
        control.configuration is Flags && validate_spec(control, value) is Err ==> validate_spec(control, value) == Err::<
            (),
            ControlValueError,
        >(ControlValueError::UndefinedFlagBits),
{
}

} // verus!
