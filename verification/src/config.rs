use vstd::prelude::*;

use crate::binding::{is_valid_binding_spec, normalize_binding_spec, normalize_trigger_binding};
use crate::text::{
    chars_of, eq_lit, is_ascii_hex_char, is_ascii_hex_exec, string_from, string_of, trim_chars,
    trim_seq,
};

verus! {

// ---------------------------------------------------------------------------
// Default values
// ---------------------------------------------------------------------------

pub open spec fn default_group_id_spec() -> Seq<char> {
    "group-uncategorized"@
}

pub open spec fn default_group_name_spec() -> Seq<char> {
    "未分類"@
}

pub fn default_group_id() -> (s: String)
    ensures
        s@ == default_group_id_spec(),
{
    string_from("group-uncategorized")
}

pub fn default_group_name() -> (s: String)
    ensures
        s@ == default_group_name_spec(),
{
    string_from("未分類")
}

pub fn default_trajectory() -> (b: bool)
    ensures
        b,
{
    true
}

pub fn default_trigger_type() -> (s: String)
    ensures
        s@ == "gesture"@,
{
    string_from("gesture")
}

pub fn default_trigger_slot() -> (s: String)
    ensures
        s@ == "A"@,
{
    string_from("A")
}

pub fn default_trigger_button_right() -> (s: String)
    ensures
        s@ == "mouse:right"@,
{
    string_from("mouse:right")
}

pub fn default_trigger_button_middle() -> (s: String)
    ensures
        s@ == "mouse:middle"@,
{
    string_from("mouse:middle")
}

pub fn default_trigger_button_x1() -> (s: String)
    ensures
        s@ == "mouse:x1"@,
{
    string_from("mouse:x1")
}

pub fn default_trigger_a_color() -> (s: String)
    ensures
        s@ == "#FF4D4F"@,
{
    string_from("#FF4D4F")
}

pub fn default_trigger_b_color() -> (s: String)
    ensures
        s@ == "#4C8DFF"@,
{
    string_from("#4C8DFF")
}

pub fn default_trigger_c_color() -> (s: String)
    ensures
        s@ == "#22A06B"@,
{
    string_from("#22A06B")
}

// ---------------------------------------------------------------------------
// Validation errors
// ---------------------------------------------------------------------------

/// Why a configuration was rejected.
#[derive(Debug, Clone)]
#[allow(dead_code)]
pub enum ValidationError {
    InvalidFormat(String),
    MissingRequiredField(String),
    InvalidValue(String),
}

/// The view of a validation error.
pub enum ValidationErrorView {
    InvalidFormat(Seq<char>),
    MissingRequiredField(Seq<char>),
    InvalidValue(Seq<char>),
}

impl View for ValidationError {
    type V = ValidationErrorView;

    open spec fn view(&self) -> ValidationErrorView {
        match self {
            ValidationError::InvalidFormat(s) => ValidationErrorView::InvalidFormat(s@),
            ValidationError::MissingRequiredField(s) => ValidationErrorView::MissingRequiredField(
                s@,
            ),
            ValidationError::InvalidValue(s) => ValidationErrorView::InvalidValue(s@),
        }
    }
}

/// The message of a validation error, as its `Display` writes it.
pub open spec fn validation_message(e: ValidationErrorView) -> Seq<char> {
    match e {
        ValidationErrorView::InvalidFormat(m) => "invalid format: "@ + m,
        ValidationErrorView::MissingRequiredField(f) => "missing required field: "@ + f,
        ValidationErrorView::InvalidValue(m) => "invalid value: "@ + m,
    }
}

impl ValidationError {
    /// The message of this error (`invalid value: ...` and so on).
    pub fn message(&self) -> (s: String)
        ensures
            s@ == validation_message(self@),
    {
        match self {
            ValidationError::InvalidFormat(m) => concat(&string_from("invalid format: "), m),
            ValidationError::MissingRequiredField(f) => concat(
                &string_from("missing required field: "),
                f,
            ),
            ValidationError::InvalidValue(m) => concat(&string_from("invalid value: "), m),
        }
    }
}

/// The concatenation of two strings.
pub fn concat(a: &String, b: &String) -> (s: String)
    ensures
        s@ == a@ + b@,
{
    let mut v = chars_of(a.as_str());
    let w = chars_of(b.as_str());
    let mut s = string_of(v.as_slice());
    crate::text::push_chars(&mut s, w.as_slice());
    s
}

// ---------------------------------------------------------------------------
// Gesture templates
// ---------------------------------------------------------------------------

/// A recorded gesture: its name and its points (the point type is chosen by the
/// program that records them).
#[derive(Debug, Clone)]
pub struct GestureTemplate<P> {
    pub name: String,
    pub points: Vec<P>,
}

/// A template is valid when it has a name and at least one point.
pub open spec fn template_error<P>(t: GestureTemplate<P>) -> Option<ValidationErrorView> {
    if t.name@.len() == 0 {
        Some(ValidationErrorView::MissingRequiredField("name"@))
    } else if t.points@.len() == 0 {
        Some(ValidationErrorView::MissingRequiredField("points"@))
    } else {
        None
    }
}

impl<P> GestureTemplate<P> {
    /// Checks that the template has a name and at least one point.
    pub fn validate(&self) -> (r: Result<(), ValidationError>)
        ensures
            match r {
                Ok(()) => template_error(*self) is None,
                Err(e) => template_error(*self) == Some(e@),
            },
    {
        if self.name.as_str().is_empty() {
            return Err(ValidationError::MissingRequiredField(string_from("name")));
        }
        if self.points.len() == 0 {
            return Err(ValidationError::MissingRequiredField(string_from("points")));
        }
        Ok(())
    }
}

// ---------------------------------------------------------------------------
// Action groups
// ---------------------------------------------------------------------------

/// A named group of actions.
#[derive(Debug, Clone, PartialEq, Eq)]
pub struct ActionGroup {
    pub id: String,
    pub name: String,
}

pub struct GroupView {
    pub id: Seq<char>,
    pub name: Seq<char>,
}

impl View for ActionGroup {
    type V = GroupView;

    open spec fn view(&self) -> GroupView {
        GroupView { id: self.id@, name: self.name@ }
    }
}

/// A group name: trimmed, or the name of the default group when empty.
pub open spec fn normalize_group_name_spec(v: Seq<char>) -> Seq<char> {
    if trim_seq(v).len() == 0 {
        default_group_name_spec()
    } else {
        trim_seq(v)
    }
}

/// A group with trimmed id and normalized name.
pub open spec fn normalize_group_spec(g: GroupView) -> GroupView {
    GroupView { id: trim_seq(g.id), name: normalize_group_name_spec(g.name) }
}

pub fn normalize_group_name(value: &String) -> (s: String)
    ensures
        s@ == normalize_group_name_spec(value@),
{
    let v = chars_of(value.as_str());
    let t = trim_chars(v.as_slice());
    if t.len() == 0 {
        default_group_name()
    } else {
        string_of(t.as_slice())
    }
}

pub fn normalize_group_id(value: &String) -> (s: String)
    ensures
        s@ == trim_seq(value@),
{
    let v = chars_of(value.as_str());
    let t = trim_chars(v.as_slice());
    string_of(t.as_slice())
}

impl Default for ActionGroup {
    fn default() -> (g: Self)
        ensures
            g@ == (GroupView { id: default_group_id_spec(), name: default_group_name_spec() }),
    {
        ActionGroup { id: default_group_id(), name: default_group_name() }
    }
}

impl ActionGroup {
    /// The group with its id trimmed and its name normalized.
    pub fn normalized(self) -> (g: Self)
        ensures
            g@ == normalize_group_spec(self@),
    {
        ActionGroup { id: normalize_group_id(&self.id), name: normalize_group_name(&self.name) }
    }
}

// ---------------------------------------------------------------------------
// Actions
// ---------------------------------------------------------------------------

/// What a gesture or a wheel movement triggers.
#[derive(Debug, Clone, PartialEq, Eq)]
#[allow(non_snake_case)]
pub struct Action {
    pub name: String,
    pub group_id: String,
    pub group: String,
    pub trigger_type: String,
    pub trigger_slot: String,
    pub gesture: String,
    pub wheel_trigger: Option<String>,
    pub action_type: String,
    pub keystroke: Option<String>,
    pub modifiers: Option<Vec<String>>,
    pub command: Option<String>,
    pub url: Option<String>,
    pub operation: Option<String>,
    pub ignore_exe: Option<Vec<String>>,
}

pub struct ActionView {
    pub name: Seq<char>,
    pub group_id: Seq<char>,
    pub group: Seq<char>,
    pub trigger_type: Seq<char>,
    pub trigger_slot: Seq<char>,
    pub gesture: Seq<char>,
    pub wheel_trigger: Option<Seq<char>>,
    pub action_type: Seq<char>,
    pub keystroke: Option<Seq<char>>,
    pub modifiers: Option<Seq<Seq<char>>>,
    pub command: Option<Seq<char>>,
    pub url: Option<Seq<char>>,
    pub operation: Option<Seq<char>>,
    pub ignore_exe: Option<Seq<Seq<char>>>,
}

pub open spec fn opt_string_view(o: Option<String>) -> Option<Seq<char>> {
    match o {
        Some(s) => Some(s@),
        None => None,
    }
}

pub open spec fn strings_seq_view(v: Seq<String>) -> Seq<Seq<char>> {
    v.map_values(|x: String| x@)
}

pub open spec fn opt_strings_view(o: Option<Vec<String>>) -> Option<Seq<Seq<char>>> {
    match o {
        Some(v) => Some(strings_seq_view(v@)),
        None => None,
    }
}

impl View for Action {
    type V = ActionView;

    open spec fn view(&self) -> ActionView {
        ActionView {
            name: self.name@,
            group_id: self.group_id@,
            group: self.group@,
            trigger_type: self.trigger_type@,
            trigger_slot: self.trigger_slot@,
            gesture: self.gesture@,
            wheel_trigger: opt_string_view(self.wheel_trigger),
            action_type: self.action_type@,
            keystroke: opt_string_view(self.keystroke),
            modifiers: opt_strings_view(self.modifiers),
            command: opt_string_view(self.command),
            url: opt_string_view(self.url),
            operation: opt_string_view(self.operation),
            ignore_exe: opt_strings_view(self.ignore_exe),
        }
    }
}

/// The uppercase form of a string as `str::to_uppercase` computes it (full
/// Unicode case mapping).
pub uninterp spec fn str_uppercase(s: Seq<char>) -> Seq<char>;

/// `str::to_uppercase`: the Unicode uppercase equivalent of a string.  The
/// contract names the result and states its ASCII part (the ASCII letters map
/// to their ASCII capitals and other ASCII characters are kept, as
/// `to_ascii_uppercase` does); the Unicode tables behind the rest are not
/// restated here.
#[verifier::external_body]
fn to_uppercase(s: &str) -> (r: String)
    ensures
        r@ == str_uppercase(s@),
        crate::text::all_ascii(s@) ==> r@ == crate::text::ascii_upper(s@),
{
    s.to_uppercase()
}

/// The uppercase of a slot, as `str::to_uppercase` gives it: ASCII capitals
/// for an ASCII slot, the Unicode uppercase (named, not restated) otherwise.
pub open spec fn slot_uppercase(s: Seq<char>) -> Seq<char> {
    if crate::text::all_ascii(s) {
        crate::text::ascii_upper(s)
    } else {
        str_uppercase(s)
    }
}

/// An action after normalization: an empty trigger type becomes `gesture`; an
/// empty slot of a gesture action becomes `A`; a non-empty slot is uppercased;
/// the name `past` (trimmed) is corrected to `paste`; the group id and the
/// legacy group name are trimmed.  Every other field is kept.
pub open spec fn normalize_action_spec(a: ActionView) -> ActionView {
    let tt = if a.trigger_type.len() == 0 {
        "gesture"@
    } else {
        a.trigger_type
    };
    let slot0 = if tt == "gesture"@ && a.trigger_slot.len() == 0 {
        "A"@
    } else {
        a.trigger_slot
    };
    let slot = if slot0.len() > 0 {
        slot_uppercase(slot0)
    } else {
        slot0
    };
    let name = if trim_seq(a.name) == "past"@ {
        "paste"@
    } else {
        a.name
    };
    ActionView {
        name: name,
        group_id: trim_seq(a.group_id),
        group: trim_seq(a.group),
        trigger_type: tt,
        trigger_slot: slot,
        ..a
    }
}

impl Default for Action {
    fn default() -> (a: Self)
        ensures
            a@.name.len() == 0,
            a@.group_id.len() == 0,
            a@.group.len() == 0,
            a@.trigger_type == "gesture"@,
            a@.trigger_slot == "A"@,
            a@.gesture.len() == 0,
            a@.wheel_trigger is None,
            a@.action_type.len() == 0,
            a@.keystroke is None,
            a@.modifiers is None,
            a@.command is None,
            a@.url is None,
            a@.operation is None,
            a@.ignore_exe is None,
    {
        Action {
            name: String::new(),
            group_id: String::new(),
            group: String::new(),
            trigger_type: default_trigger_type(),
            trigger_slot: default_trigger_slot(),
            gesture: String::new(),
            wheel_trigger: None,
            action_type: String::new(),
            keystroke: None,
            modifiers: None,
            command: None,
            url: None,
            operation: None,
            ignore_exe: None,
        }
    }
}

impl Action {
    /// The action with defaults filled in and its fields tidied (see
    /// `normalize_action_spec`).
    pub fn normalized(self) -> (a: Self)
        ensures
            a@ == normalize_action_spec(self@),
            (self@.trigger_type.len() == 0 || self@.trigger_type == "gesture"@)
                && self@.trigger_slot.len() == 0 ==> a@.trigger_slot == "A"@,
            crate::text::all_ascii(slot_before_uppercase(self@)) ==> a@.trigger_slot
                == crate::text::ascii_upper(slot_before_uppercase(self@)),
    {
        proof {
            reveal_strlit("A");
            reveal_strlit("gesture");
            assert(crate::text::ascii_upper("A"@) =~= "A"@);
            assert(crate::text::ascii_upper(Seq::<char>::empty()) =~= Seq::<char>::empty());
        }
        let mut a = self;
        if a.trigger_type.as_str().is_empty() {
            a.trigger_type = default_trigger_type();
        }
        let tt = chars_of(a.trigger_type.as_str());
        if eq_lit(tt.as_slice(), "gesture") && a.trigger_slot.as_str().is_empty() {
            a.trigger_slot = default_trigger_slot();
        }
        if !a.trigger_slot.as_str().is_empty() {
            a.trigger_slot = to_uppercase(a.trigger_slot.as_str());
        }
        let nm = chars_of(a.name.as_str());
        let tn = trim_chars(nm.as_slice());
        if eq_lit(tn.as_slice(), "past") {
            a.name = string_from("paste");
        }
        a.group_id = normalize_group_id(&a.group_id);
        let g = chars_of(a.group.as_str());
        let tg = trim_chars(g.as_slice());
        a.group = string_of(tg.as_slice());
        a
    }
}

// ---------------------------------------------------------------------------
// Colors
// ---------------------------------------------------------------------------

/// `#` followed by six hexadecimal digits.
pub open spec fn is_valid_hex_color_spec(s: Seq<char>) -> bool {
    &&& s.len() == 7
    &&& s[0] == '#'
    &&& forall|i: int| 1 <= i < 7 ==> is_ascii_hex_char(#[trigger] s[i])
}

pub fn is_valid_hex_color(value: &String) -> (b: bool)
    ensures
        b == is_valid_hex_color_spec(value@),
{
    let v = chars_of(value.as_str());
    if v.len() != 7 || v[0] != '#' {
        return false;
    }
    let mut i: usize = 1;
    while i < 7
        invariant
            1 <= i <= 7,
            v@.len() == 7,
            v@ == value@,
            forall|k: int| 1 <= k < i ==> is_ascii_hex_char(#[trigger] v@[k]),
        decreases 7 - i,
    {
        if !is_ascii_hex_exec(v[i]) {
            assert(!is_ascii_hex_char(value@[i as int]));
            return false;
        }
        i = i + 1;
    }
    true
}

} // verus!

verus! {

// ---------------------------------------------------------------------------
// The configuration
// ---------------------------------------------------------------------------

/// The application settings.
#[derive(Debug, Clone, PartialEq, Eq)]
#[allow(non_snake_case)]
pub struct Config {
    pub trajectory: bool,
    pub ignore_exe: Vec<String>,
    pub triggerA: String,
    pub triggerB: String,
    pub triggerC: String,
    pub triggerAColor: String,
    pub triggerBColor: String,
    pub triggerCColor: String,
    pub groups: Vec<ActionGroup>,
    pub actions: Vec<Action>,
}

pub struct ConfigView {
    pub trajectory: bool,
    pub ignore_exe: Seq<Seq<char>>,
    pub trigger_a: Seq<char>,
    pub trigger_b: Seq<char>,
    pub trigger_c: Seq<char>,
    pub trigger_a_color: Seq<char>,
    pub trigger_b_color: Seq<char>,
    pub trigger_c_color: Seq<char>,
    pub groups: Seq<GroupView>,
    pub actions: Seq<ActionView>,
}

impl View for Config {
    type V = ConfigView;

    open spec fn view(&self) -> ConfigView {
        ConfigView {
            trajectory: self.trajectory,
            ignore_exe: strings_seq_view(self.ignore_exe@),
            trigger_a: self.triggerA@,
            trigger_b: self.triggerB@,
            trigger_c: self.triggerC@,
            trigger_a_color: self.triggerAColor@,
            trigger_b_color: self.triggerBColor@,
            trigger_c_color: self.triggerCColor@,
            groups: crate::groups::groups_view(self.groups@),
            actions: crate::groups::actions_view(self.actions@),
        }
    }
}

impl Default for Config {
    fn default() -> (c: Self)
        ensures
            c@.trajectory,
            c@.ignore_exe.len() == 0,
            c@.trigger_a == "mouse:right"@,
            c@.trigger_b == "mouse:middle"@,
            c@.trigger_c == "mouse:x1"@,
            c@.trigger_a_color == "#FF4D4F"@,
            c@.trigger_b_color == "#4C8DFF"@,
            c@.trigger_c_color == "#22A06B"@,
            c@.groups == seq![GroupView { id: default_group_id_spec(), name: default_group_name_spec() }],
            c@.actions.len() == 0,
    {
        let c = Config {
            trajectory: default_trajectory(),
            ignore_exe: Vec::new(),
            triggerA: default_trigger_button_right(),
            triggerB: default_trigger_button_middle(),
            triggerC: default_trigger_button_x1(),
            triggerAColor: default_trigger_a_color(),
            triggerBColor: default_trigger_b_color(),
            triggerCColor: default_trigger_c_color(),
            groups: vec![ActionGroup::default()],
            actions: Vec::new(),
        };
        assert(c@.groups =~= seq![GroupView { id: default_group_id_spec(), name: default_group_name_spec() }]);
        c
    }
}

/// Every action normalized.
pub open spec fn normalize_actions_spec(acts: Seq<ActionView>) -> Seq<ActionView> {
    acts.map_values(|a: ActionView| normalize_action_spec(a))
}

/// A color kept when it is `#` and six hex digits, replaced by the default
/// otherwise.
pub open spec fn normalize_color_spec(c: Seq<char>, default_color: Seq<char>) -> Seq<char> {
    if is_valid_hex_color_spec(c) {
        c
    } else {
        default_color
    }
}

/// The configuration after normalization: the trigger bindings in canonical
/// form (falling back to right, middle and X1), invalid colors replaced by
/// the defaults, every action normalized, and the groups and the actions'
/// group ids resolved.
pub open spec fn normalize_config_spec(c: ConfigView) -> ConfigView {
    let gs = crate::groups::normalize_groups_spec(c.groups, normalize_actions_spec(c.actions));
    ConfigView {
        trajectory: c.trajectory,
        ignore_exe: c.ignore_exe,
        trigger_a: normalize_binding_spec(c.trigger_a, "mouse:right"@),
        trigger_b: normalize_binding_spec(c.trigger_b, "mouse:middle"@),
        trigger_c: normalize_binding_spec(c.trigger_c, "mouse:x1"@),
        trigger_a_color: normalize_color_spec(c.trigger_a_color, "#FF4D4F"@),
        trigger_b_color: normalize_color_spec(c.trigger_b_color, "#4C8DFF"@),
        trigger_c_color: normalize_color_spec(c.trigger_c_color, "#22A06B"@),
        groups: gs.0,
        actions: gs.1,
    }
}

impl Config {
    /// The configuration in normalized form (see `normalize_config_spec`).
    pub fn normalized(self) -> (r: Self)
        ensures
            r@ == normalize_config_spec(self@),
    {
        let ghost c0 = self@;
        let mut c = self;
        c.triggerA = normalize_trigger_binding(c.triggerA.as_str(), "mouse:right");
        c.triggerB = normalize_trigger_binding(c.triggerB.as_str(), "mouse:middle");
        c.triggerC = normalize_trigger_binding(c.triggerC.as_str(), "mouse:x1");
        if !is_valid_hex_color(&c.triggerAColor) {
            c.triggerAColor = default_trigger_a_color();
        }
        if !is_valid_hex_color(&c.triggerBColor) {
            c.triggerBColor = default_trigger_b_color();
        }
        if !is_valid_hex_color(&c.triggerCColor) {
            c.triggerCColor = default_trigger_c_color();
        }
        let mut acts: Vec<Action> = Vec::new();
        std::mem::swap(&mut acts, &mut c.actions);
        let ghost av = crate::groups::actions_view(acts@);
        assert(av == c0.actions);
        let mut normalized_actions: Vec<Action> = Vec::new();
        for a in it: acts.into_iter()
            invariant
                it.seq() == acts@,
                av == crate::groups::actions_view(acts@),
                crate::groups::actions_view(normalized_actions@) =~= normalize_actions_spec(
                    av.take(it.index() as int),
                ),
        {
            let ghost k = it.index();
            let ghost prev = crate::groups::actions_view(normalized_actions@);
            assert(a == acts@[k as int]);
            assert(av[k as int] == a@);
            let na = a.normalized();
            normalized_actions.push(na);
            proof {
                assert(av.take(k + 1) =~= av.take(k as int).push(av[k as int]));
                assert(normalize_actions_spec(av.take(k + 1)) =~= normalize_actions_spec(
                    av.take(k as int),
                ).push(normalize_action_spec(av[k as int])));
                assert(crate::groups::actions_view(normalized_actions@) =~= prev.push(na@));
            }
        }
        assert(av.take(av.len() as int) =~= av);
        let mut groups: Vec<ActionGroup> = Vec::new();
        std::mem::swap(&mut groups, &mut c.groups);
        let gs = crate::groups::normalize_groups_and_actions(groups, &mut normalized_actions);
        c.groups = gs;
        c.actions = normalized_actions;
        c
    }
}

} // verus!

verus! {

// ---------------------------------------------------------------------------
// Validation
// ---------------------------------------------------------------------------

pub open spec fn is_valid_trigger_slot_spec(s: Seq<char>) -> bool {
    s == "A"@ || s == "B"@ || s == "C"@
}

fn is_valid_trigger_slot(value: &[char]) -> (b: bool)
    ensures
        b == is_valid_trigger_slot_spec(value@),
{
    eq_lit(value, "A") || eq_lit(value, "B") || eq_lit(value, "C")
}

pub open spec fn is_known_action_type(t: Seq<char>) -> bool {
    t == "keystroke"@ || t == "command"@ || t == "url"@ || t == "window_operation"@
}

/// A wheel action lacks its wheel trigger when it has none or a blank one.
pub open spec fn wheel_trigger_missing(w: Option<Seq<char>>) -> bool {
    match w {
        Some(s) => trim_seq(s).len() == 0,
        None => true,
    }
}

/// The first problem of an action, checked in this order: trigger type, action
/// type, group id present, group id known, gesture name and slot of a gesture
/// action, wheel trigger of a wheel action.
pub open spec fn action_error(a: ActionView, gs: Seq<GroupView>) -> Option<ValidationErrorView> {
    if a.trigger_type != "gesture"@ && a.trigger_type != "wheel"@ {
        Some(
            ValidationErrorView::InvalidValue(
                "trigger_type must be gesture or wheel: "@ + a.trigger_type,
            ),
        )
    } else if !is_known_action_type(a.action_type) {
        Some(ValidationErrorView::InvalidValue("unsupported action_type: "@ + a.action_type))
    } else if trim_seq(a.group_id).len() == 0 {
        Some(ValidationErrorView::MissingRequiredField("group_id"@))
    } else if !crate::groups::id_used(gs, a.group_id) {
        Some(ValidationErrorView::InvalidValue("unknown group_id: "@ + a.group_id))
    } else if a.trigger_type == "gesture"@ && a.gesture.len() == 0 {
        Some(ValidationErrorView::MissingRequiredField("gesture"@))
    } else if a.trigger_type == "gesture"@ && !is_valid_trigger_slot_spec(a.trigger_slot) {
        Some(ValidationErrorView::InvalidValue("invalid trigger_slot: "@ + a.trigger_slot))
    } else if a.trigger_type == "wheel"@ && wheel_trigger_missing(a.wheel_trigger) {
        Some(ValidationErrorView::MissingRequiredField("wheel_trigger"@))
    } else {
        None
    }
}

fn is_blank(s: &String) -> (b: bool)
    ensures
        b == (trim_seq(s@).len() == 0),
{
    let v = chars_of(s.as_str());
    let t = trim_chars(v.as_slice());
    t.len() == 0
}

fn with_prefix(prefix: &str, s: &String) -> (r: String)
    ensures
        r@ == prefix@ + s@,
{
    concat(&string_from(prefix), s)
}

impl Action {
    /// Checks the action against the known groups (see `action_error`).
    pub fn validate(&self, groups: &Vec<ActionGroup>) -> (r: Result<(), ValidationError>)
        ensures
            match r {
                Ok(()) => action_error(self@, crate::groups::groups_view(groups@)) is None,
                Err(e) => action_error(self@, crate::groups::groups_view(groups@)) == Some(e@),
            },
    {
        let tt = chars_of(self.trigger_type.as_str());
        let is_gesture = eq_lit(tt.as_slice(), "gesture");
        let is_wheel = eq_lit(tt.as_slice(), "wheel");
        if !is_gesture && !is_wheel {
            return Err(
                ValidationError::InvalidValue(
                    with_prefix("trigger_type must be gesture or wheel: ", &self.trigger_type),
                ),
            );
        }
        let at = chars_of(self.action_type.as_str());
        if !eq_lit(at.as_slice(), "keystroke") && !eq_lit(at.as_slice(), "command") && !eq_lit(
            at.as_slice(),
            "url",
        ) && !eq_lit(at.as_slice(), "window_operation") {
            return Err(
                ValidationError::InvalidValue(
                    with_prefix("unsupported action_type: ", &self.action_type),
                ),
            );
        }
        if is_blank(&self.group_id) {
            return Err(ValidationError::MissingRequiredField(string_from("group_id")));
        }
        if !crate::groups::id_used_exec(groups, &self.group_id) {
            return Err(
                ValidationError::InvalidValue(with_prefix("unknown group_id: ", &self.group_id)),
            );
        }
        if is_gesture {
            if self.gesture.as_str().is_empty() {
                return Err(ValidationError::MissingRequiredField(string_from("gesture")));
            }
            let slot = chars_of(self.trigger_slot.as_str());
            if !is_valid_trigger_slot(slot.as_slice()) {
                return Err(
                    ValidationError::InvalidValue(
                        with_prefix("invalid trigger_slot: ", &self.trigger_slot),
                    ),
                );
            }
        }
        if is_wheel {
            let missing = match &self.wheel_trigger {
                Some(w) => is_blank(w),
                None => true,
            };
            if missing {
                return Err(ValidationError::MissingRequiredField(string_from("wheel_trigger")));
            }
        }
        Ok(())
    }
}

/// The problem of the group at index `i`, judged against the groups before it.
pub open spec fn group_error_at(gs: Seq<GroupView>, i: int) -> Option<ValidationErrorView> {
    if trim_seq(gs[i].id).len() == 0 {
        Some(
            ValidationErrorView::InvalidValue(
                "groups["@ + crate::text::decimal(i as nat) + "] has empty id"@,
            ),
        )
    } else if exists|j: int| 0 <= j < i && gs[j].id == gs[i].id {
        Some(ValidationErrorView::InvalidValue("duplicate group id: "@ + gs[i].id))
    } else {
        None
    }
}

/// The first problem among the groups.
pub open spec fn first_group_error(gs: Seq<GroupView>) -> Option<ValidationErrorView>
    decreases gs.len(),
{
    if gs.len() == 0 {
        None
    } else {
        match first_group_error(gs.drop_last()) {
            Some(e) => Some(e),
            None => group_error_at(gs, gs.len() - 1),
        }
    }
}

/// The problem of the action at index `i`, reported with its index.
pub open spec fn indexed_action_error(a: ActionView, i: int, gs: Seq<GroupView>) -> Option<
    ValidationErrorView,
> {
    match action_error(a, gs) {
        Some(e) => Some(
            ValidationErrorView::InvalidValue(
                "actions["@ + crate::text::decimal(i as nat) + "]: "@ + validation_message(e),
            ),
        ),
        None => None,
    }
}

/// The first problem among the actions.
pub open spec fn first_action_error(acts: Seq<ActionView>, gs: Seq<GroupView>) -> Option<
    ValidationErrorView,
>
    decreases acts.len(),
{
    if acts.len() == 0 {
        None
    } else {
        match first_action_error(acts.drop_last(), gs) {
            Some(e) => Some(e),
            None => indexed_action_error(acts.last(), acts.len() - 1, gs),
        }
    }
}

/// The first problem of a configuration, checked in this order: the three
/// trigger bindings, the three colors, the presence of groups, each group,
/// each action.
pub open spec fn config_error(c: ConfigView) -> Option<ValidationErrorView> {
    if !is_valid_binding_spec(c.trigger_a) {
        Some(ValidationErrorView::InvalidValue("invalid triggerA: "@ + c.trigger_a))
    } else if !is_valid_binding_spec(c.trigger_b) {
        Some(ValidationErrorView::InvalidValue("invalid triggerB: "@ + c.trigger_b))
    } else if !is_valid_binding_spec(c.trigger_c) {
        Some(ValidationErrorView::InvalidValue("invalid triggerC: "@ + c.trigger_c))
    } else if !is_valid_hex_color_spec(c.trigger_a_color) {
        Some(ValidationErrorView::InvalidValue("invalid triggerAColor: "@ + c.trigger_a_color))
    } else if !is_valid_hex_color_spec(c.trigger_b_color) {
        Some(ValidationErrorView::InvalidValue("invalid triggerBColor: "@ + c.trigger_b_color))
    } else if !is_valid_hex_color_spec(c.trigger_c_color) {
        Some(ValidationErrorView::InvalidValue("invalid triggerCColor: "@ + c.trigger_c_color))
    } else if c.groups.len() == 0 {
        Some(ValidationErrorView::MissingRequiredField("groups"@))
    } else if first_group_error(c.groups) is Some {
        first_group_error(c.groups)
    } else {
        first_action_error(c.actions, c.groups)
    }
}

pub proof fn lemma_first_group_error_prefix(s: Seq<GroupView>, i: int)
    requires
        0 <= i <= s.len(),
        first_group_error(s.take(i)) is Some,
    ensures
        first_group_error(s) == first_group_error(s.take(i)),
    decreases s.len(),
{
    if i == s.len() {
        assert(s.take(i) =~= s);
    } else {
        assert(s.drop_last().take(i) =~= s.take(i));
        lemma_first_group_error_prefix(s.drop_last(), i);
    }
}

pub proof fn lemma_first_action_error_prefix(s: Seq<ActionView>, gs: Seq<GroupView>, i: int)
    requires
        0 <= i <= s.len(),
        first_action_error(s.take(i), gs) is Some,
    ensures
        first_action_error(s, gs) == first_action_error(s.take(i), gs),
    decreases s.len(),
{
    if i == s.len() {
        assert(s.take(i) =~= s);
    } else {
        assert(s.drop_last().take(i) =~= s.take(i));
        lemma_first_action_error_prefix(s.drop_last(), gs, i);
    }
}

fn indexed_message(prefix: &str, i: usize, suffix: &str, tail: &String) -> (r: String)
    ensures
        r@ == prefix@ + crate::text::decimal(i as nat) + suffix@ + tail@,
{
    let mut s = string_from(prefix);
    crate::text::push_decimal(&mut s, i as u128);
    let sf = chars_of(suffix);
    crate::text::push_chars(&mut s, sf.as_slice());
    let t = chars_of(tail.as_str());
    crate::text::push_chars(&mut s, t.as_slice());
    s
}

impl Config {
    /// Checks the configuration (see `config_error`).
    #[verifier::loop_isolation(false)]
    pub fn validate(&self) -> (r: Result<(), ValidationError>)
        ensures
            match r {
                Ok(()) => config_error(self@) is None,
                Err(e) => config_error(self@) == Some(e@),
            },
    {
        if !crate::binding::is_valid_trigger_binding(self.triggerA.as_str()) {
            return Err(ValidationError::InvalidValue(with_prefix("invalid triggerA: ", &self.triggerA)));
        }
        if !crate::binding::is_valid_trigger_binding(self.triggerB.as_str()) {
            return Err(ValidationError::InvalidValue(with_prefix("invalid triggerB: ", &self.triggerB)));
        }
        if !crate::binding::is_valid_trigger_binding(self.triggerC.as_str()) {
            return Err(ValidationError::InvalidValue(with_prefix("invalid triggerC: ", &self.triggerC)));
        }
        if !is_valid_hex_color(&self.triggerAColor) {
            return Err(
                ValidationError::InvalidValue(with_prefix("invalid triggerAColor: ", &self.triggerAColor)),
            );
        }
        if !is_valid_hex_color(&self.triggerBColor) {
            return Err(
                ValidationError::InvalidValue(with_prefix("invalid triggerBColor: ", &self.triggerBColor)),
            );
        }
        if !is_valid_hex_color(&self.triggerCColor) {
            return Err(
                ValidationError::InvalidValue(with_prefix("invalid triggerCColor: ", &self.triggerCColor)),
            );
        }
        if self.groups.len() == 0 {
            return Err(ValidationError::MissingRequiredField(string_from("groups")));
        }
        let ghost gv = crate::groups::groups_view(self.groups@);
        let n = self.groups.len();
        let mut i: usize = 0;
        while i < n
            invariant
                i <= n,
                n == self.groups@.len(),
                gv == crate::groups::groups_view(self.groups@),
                first_group_error(gv.take(i as int)) is None,
            decreases n - i,
        {
            proof {
                assert(gv.take(i + 1).drop_last() =~= gv.take(i as int));
            }
            let ghost gi = gv.take(i + 1);
            if is_blank(&self.groups[i].id) {
                assert(gi[i as int] == gv[i as int]);
                proof {
                    lemma_first_group_error_prefix(gv, i + 1);
                }
                return Err(
                    ValidationError::InvalidValue(
                        indexed_message("groups[", i, "] has empty id", &String::new()),
                    ),
                );
            }
            let mut j: usize = 0;
            while j < i
                invariant
                    j <= i < n,
                    gi == gv.take(i + 1),
                    n == self.groups@.len(),
                    gv == crate::groups::groups_view(self.groups@),
                    forall|k: int| 0 <= k < j ==> gv[k].id != gv[i as int].id,
                decreases i - j,
            {
                if self.groups[j].id == self.groups[i].id {
                    proof {
                        assert(gi[j as int] == gv[j as int]);
                        assert(gi[i as int] == gv[i as int]);
                        assert(gi[j as int].id == gi[i as int].id);
                        lemma_first_group_error_prefix(gv, i + 1);
                    }
                    return Err(
                        ValidationError::InvalidValue(
                            with_prefix("duplicate group id: ", &self.groups[i].id),
                        ),
                    );
                }
                j = j + 1;
            }
            proof {
                assert(!exists|k: int| 0 <= k < i && gi[k].id == gi[i as int].id) by {
                    assert forall|k: int| 0 <= k < i implies gi[k].id != gi[i as int].id by {
                        assert(gi[k] == gv[k]);
                    }
                }
            }
            i = i + 1;
        }
        assert(gv.take(n as int) =~= gv);
        let ghost av = crate::groups::actions_view(self.actions@);
        let m = self.actions.len();
        let mut k: usize = 0;
        while k < m
            invariant
                k <= m,
                m == self.actions@.len(),
                av == crate::groups::actions_view(self.actions@),
                gv == crate::groups::groups_view(self.groups@),
                first_action_error(av.take(k as int), gv) is None,
            decreases m - k,
        {
            proof {
                assert(av.take(k + 1).drop_last() =~= av.take(k as int));
                assert(av.take(k + 1).last() == self.actions@[k as int]@);
            }
            match self.actions[k].validate(&self.groups) {
                Ok(()) => {},
                Err(e) => {
                    proof {
                        lemma_first_action_error_prefix(av, gv, k + 1);
                    }
                    let msg = e.message();
                    return Err(
                        ValidationError::InvalidValue(indexed_message("actions[", k, "]: ", &msg)),
                    );
                },
            }
            k = k + 1;
        }
        assert(av.take(m as int) =~= av);
        Ok(())
    }
}

} // verus!

verus! {

// ---------------------------------------------------------------------------
// Laws of normalization
// ---------------------------------------------------------------------------

/// The slot value that action normalization uppercases (after filling in the
/// default slot of a gesture action).
pub open spec fn slot_before_uppercase(a: ActionView) -> Seq<char> {
    let tt = if a.trigger_type.len() == 0 {
        "gesture"@
    } else {
        a.trigger_type
    };
    if tt == "gesture"@ && a.trigger_slot.len() == 0 {
        "A"@
    } else {
        a.trigger_slot
    }
}

/// Uppercasing a non-empty `s` gives a non-empty string that uppercasing
/// leaves unchanged.
pub open spec fn uppercase_settles(s: Seq<char>) -> bool {
    s.len() > 0 ==> (slot_uppercase(s).len() > 0 && slot_uppercase(slot_uppercase(s))
        == slot_uppercase(s))
}

/// Every ASCII slot settles under uppercasing.
pub proof fn lemma_ascii_slot_settles(s: Seq<char>)
    requires
        crate::text::all_ascii(s),
    ensures
        uppercase_settles(s),
{
    crate::text::lemma_ascii_upper_settles(s);
}

pub proof fn lemma_default_colors_valid()
    ensures
        is_valid_hex_color_spec("#FF4D4F"@),
        is_valid_hex_color_spec("#4C8DFF"@),
        is_valid_hex_color_spec("#22A06B"@),
{
    reveal_strlit("#FF4D4F");
    reveal_strlit("#4C8DFF");
    reveal_strlit("#22A06B");
}

/// An action normalized once, with a resolved (trimmed) group id and no legacy
/// group name, is left unchanged by normalizing again.
pub proof fn lemma_action_normalized_fixed(a: ActionView, b: ActionView)
    requires
        uppercase_settles(slot_before_uppercase(a)),
        crate::groups::same_except_group(normalize_action_spec(a), b),
        b.group.len() == 0,
        crate::text::is_trimmed(b.group_id),
    ensures
        normalize_action_spec(b) == b,
{
    reveal_strlit("gesture");
    reveal_strlit("A");
    reveal_strlit("past");
    reveal_strlit("paste");
    let n = normalize_action_spec(a);
    crate::text::lemma_trimmed_fixed(b.group_id);
    assert(trim_seq(b.group) =~= b.group);
    assert(b.trigger_type.len() > 0);
    if trim_seq(a.name) == "past"@ {
        crate::text::lemma_trimmed_fixed("paste"@);
        assert(trim_seq(b.name).len() == 5);
    }
    assert(b.group =~= Seq::<char>::empty());
}

/// Whether uppercasing settles every slot that normalization uppercases (the
/// condition of `law_normalize_config_idempotent`), found by uppercasing each
/// such slot twice.  It holds of every configuration whose slots are ASCII.
pub fn slots_case_settle(config: &Config) -> (b: bool)
    ensures
        b == (forall|i: int|
            0 <= i < config@.actions.len() ==> uppercase_settles(
                slot_before_uppercase(#[trigger] config@.actions[i]),
            )),
        (forall|i: int|
            0 <= i < config@.actions.len() ==> crate::text::all_ascii(
                slot_before_uppercase(#[trigger] config@.actions[i]),
            )) ==> b,
{
    let ghost acts = config@.actions;
    let n = config.actions.len();
    let mut i: usize = 0;
    while i < n
        invariant
            i <= n,
            n == config.actions@.len(),
            acts == config@.actions,
            forall|j: int| 0 <= j < i ==> uppercase_settles(slot_before_uppercase(#[trigger] acts[j])),
        decreases n - i,
    {
        let a = &config.actions[i];
        assert(acts[i as int] == a@);
        let tt = chars_of(a.trigger_type.as_str());
        let sl = chars_of(a.trigger_slot.as_str());
        let slot = if (tt.len() == 0 || eq_lit(tt.as_slice(), "gesture")) && sl.len() == 0 {
            chars_of("A")
        } else {
            sl
        };
        proof {
            reveal_strlit("gesture");
        }
        assert(slot@ == slot_before_uppercase(a@));
        if slot.len() > 0 {
            let st = string_of(slot.as_slice());
            let u = to_uppercase(st.as_str());
            proof {
                if crate::text::all_ascii(slot@) {
                    crate::text::lemma_ascii_upper_settles(slot@);
                }
            }
            let uc = chars_of(u.as_str());
            if uc.len() == 0 {
                return false;
            }
            let uu = to_uppercase(u.as_str());
            let uuc = chars_of(uu.as_str());
            if !crate::text::chars_eq(uuc.as_slice(), uc.as_slice()) {
                return false;
            }
        }
        i = i + 1;
    }
    true
}

/// Normalizing a normalized configuration changes nothing.  ASCII slots need
/// no condition; a non-ASCII slot that normalization uppercases must be one
/// that uppercasing settles, since the Unicode case mapping is not modelled
/// here (`slots_case_settle` tests the condition).
pub proof fn law_normalize_config_idempotent(c: ConfigView)
    requires
        forall|i: int|
            0 <= i < c.actions.len() && !crate::text::all_ascii(
                slot_before_uppercase(#[trigger] c.actions[i]),
            ) ==> uppercase_settles(slot_before_uppercase(c.actions[i])),
    ensures
        normalize_config_spec(normalize_config_spec(c)) == normalize_config_spec(c),
{
    assert forall|i: int| 0 <= i < c.actions.len() implies uppercase_settles(
        slot_before_uppercase(#[trigger] c.actions[i]),
    ) by {
        if crate::text::all_ascii(slot_before_uppercase(c.actions[i])) {
            lemma_ascii_slot_settles(slot_before_uppercase(c.actions[i]));
        }
    }
    let n = normalize_config_spec(c);
    // trigger bindings
    crate::binding::lemma_mouse_defaults();
    crate::binding::law_normalize_binding_idempotent(c.trigger_a, "mouse:right"@);
    crate::binding::law_normalize_binding_idempotent(c.trigger_b, "mouse:middle"@);
    crate::binding::law_normalize_binding_idempotent(c.trigger_c, "mouse:x1"@);
    // colors
    lemma_default_colors_valid();
    // groups and actions
    let a1 = normalize_actions_spec(c.actions);
    crate::groups::lemma_normalize_groups_output(c.groups, a1);
    crate::groups::lemma_resolve_all_fields(
        a1,
        crate::groups::register_default(
            crate::groups::register_all(
                c.groups,
                crate::groups::GroupState { groups: Seq::empty(), counter: 1 },
            ),
        ),
    );
    let gs = n.groups;
    let acts = n.actions;
    crate::groups::lemma_default_group_literals();
    assert forall|i: int| 0 <= i < acts.len() implies normalize_action_spec(#[trigger] acts[i])
        == acts[i] by {
        assert(crate::groups::action_resolved(acts[i], gs));
        assert(a1[i] == normalize_action_spec(c.actions[i]));
        if crate::groups::id_used(gs, acts[i].group_id) {
            let k = choose|k: int| 0 <= k < gs.len() && (#[trigger] gs[k]).id == acts[i].group_id;
            assert(gs[k].id.len() > 0 && crate::text::is_trimmed(gs[k].id));
        }
        lemma_action_normalized_fixed(c.actions[i], acts[i]);
    }
    assert(normalize_actions_spec(acts) =~= acts);
    crate::groups::lemma_normalize_groups_fixed(gs, acts);
}

/// After normalization every action belongs to a kept group: its group id is
/// the id of one of the normalized groups, and no legacy group name is left.
pub proof fn law_normalized_actions_in_groups(c: ConfigView)
    ensures
        forall|i: int|
            0 <= i < normalize_config_spec(c).actions.len() ==> crate::groups::id_used(
                normalize_config_spec(c).groups,
                (#[trigger] normalize_config_spec(c).actions[i]).group_id,
            ) && normalize_config_spec(c).actions[i].group.len() == 0,
{
    crate::groups::lemma_normalize_groups_output(c.groups, normalize_actions_spec(c.actions));
    let n = normalize_config_spec(c);
    assert forall|i: int| 0 <= i < n.actions.len() implies crate::groups::id_used(
        n.groups,
        (#[trigger] n.actions[i]).group_id,
    ) && n.actions[i].group.len() == 0 by {
        assert(crate::groups::action_resolved(n.actions[i], n.groups));
    }
}

/// After normalization the trigger bindings and colors are valid and the
/// groups are present and well formed, so the only problems validation can
/// still report are problems of actions.
pub proof fn law_normalized_config_checks(c: ConfigView)
    ensures
        config_error(normalize_config_spec(c)) == first_action_error(
            normalize_config_spec(c).actions,
            normalize_config_spec(c).groups,
        ),
{
    let n = normalize_config_spec(c);
    crate::binding::lemma_mouse_defaults();
    crate::binding::law_normalized_binding_valid(c.trigger_a, "mouse:right"@);
    crate::binding::law_normalized_binding_valid(c.trigger_b, "mouse:middle"@);
    crate::binding::law_normalized_binding_valid(c.trigger_c, "mouse:x1"@);
    lemma_default_colors_valid();
    crate::groups::lemma_normalize_groups_output(c.groups, normalize_actions_spec(c.actions));
    crate::groups::lemma_covered_nonempty(n.groups);
    crate::groups::lemma_wf_no_group_error(n.groups);
}

} // verus!

verus! {

// ---------------------------------------------------------------------------
// Copies and comparisons
// ---------------------------------------------------------------------------

pub fn copy_strings(v: &Vec<String>) -> (r: Vec<String>)
    ensures
        strings_seq_view(r@) == strings_seq_view(v@),
{
    let mut r: Vec<String> = Vec::new();
    let n = v.len();
    let mut i: usize = 0;
    while i < n
        invariant
            i <= n,
            n == v@.len(),
            strings_seq_view(r@) =~= strings_seq_view(v@).take(i as int),
        decreases n - i,
    {
        let ghost prev = strings_seq_view(r@);
        let x = v[i].clone();
        r.push(x);
        assert(strings_seq_view(r@) =~= prev.push(v@[i as int]@));
        assert(strings_seq_view(v@).take(i + 1) =~= strings_seq_view(v@).take(i as int).push(
            v@[i as int]@,
        ));
        i = i + 1;
    }
    r
}

pub fn copy_opt_string(o: &Option<String>) -> (r: Option<String>)
    ensures
        opt_string_view(r) == opt_string_view(*o),
{
    match o {
        Some(s) => Some(s.clone()),
        None => None,
    }
}

pub fn copy_opt_strings(o: &Option<Vec<String>>) -> (r: Option<Vec<String>>)
    ensures
        opt_strings_view(r) == opt_strings_view(*o),
{
    match o {
        Some(v) => Some(copy_strings(v)),
        None => None,
    }
}

/// A copy of an action.
pub fn copy_action(a: &Action) -> (r: Action)
    ensures
        r@ == a@,
{
    Action {
        name: a.name.clone(),
        group_id: a.group_id.clone(),
        group: a.group.clone(),
        trigger_type: a.trigger_type.clone(),
        trigger_slot: a.trigger_slot.clone(),
        gesture: a.gesture.clone(),
        wheel_trigger: copy_opt_string(&a.wheel_trigger),
        action_type: a.action_type.clone(),
        keystroke: copy_opt_string(&a.keystroke),
        modifiers: copy_opt_strings(&a.modifiers),
        command: copy_opt_string(&a.command),
        url: copy_opt_string(&a.url),
        operation: copy_opt_string(&a.operation),
        ignore_exe: copy_opt_strings(&a.ignore_exe),
    }
}

/// A copy of a configuration.
pub fn copy_config(c: &Config) -> (r: Config)
    ensures
        r@ == c@,
{
    let mut groups: Vec<ActionGroup> = Vec::new();
    let n = c.groups.len();
    let mut i: usize = 0;
    while i < n
        invariant
            i <= n,
            n == c.groups@.len(),
            crate::groups::groups_view(groups@) =~= crate::groups::groups_view(c.groups@).take(
                i as int,
            ),
        decreases n - i,
    {
        let ghost prev = crate::groups::groups_view(groups@);
        let g = ActionGroup { id: c.groups[i].id.clone(), name: c.groups[i].name.clone() };
        groups.push(g);
        assert(crate::groups::groups_view(groups@) =~= prev.push(c.groups@[i as int]@));
        assert(crate::groups::groups_view(c.groups@).take(i + 1) =~= crate::groups::groups_view(
            c.groups@,
        ).take(i as int).push(c.groups@[i as int]@));
        i = i + 1;
    }
    let mut actions: Vec<Action> = Vec::new();
    let m = c.actions.len();
    let mut j: usize = 0;
    while j < m
        invariant
            j <= m,
            m == c.actions@.len(),
            crate::groups::actions_view(actions@) =~= crate::groups::actions_view(c.actions@).take(
                j as int,
            ),
        decreases m - j,
    {
        let ghost prev = crate::groups::actions_view(actions@);
        let a = copy_action(&c.actions[j]);
        actions.push(a);
        assert(crate::groups::actions_view(actions@) =~= prev.push(c.actions@[j as int]@));
        assert(crate::groups::actions_view(c.actions@).take(j + 1) =~= crate::groups::actions_view(
            c.actions@,
        ).take(j as int).push(c.actions@[j as int]@));
        j = j + 1;
    }
    assert(crate::groups::groups_view(groups@) =~= crate::groups::groups_view(c.groups@));
    assert(crate::groups::actions_view(actions@) =~= crate::groups::actions_view(c.actions@));
    Config {
        trajectory: c.trajectory,
        ignore_exe: copy_strings(&c.ignore_exe),
        triggerA: c.triggerA.clone(),
        triggerB: c.triggerB.clone(),
        triggerC: c.triggerC.clone(),
        triggerAColor: c.triggerAColor.clone(),
        triggerBColor: c.triggerBColor.clone(),
        triggerCColor: c.triggerCColor.clone(),
        groups: groups,
        actions: actions,
    }
}

pub fn strings_equal(a: &Vec<String>, b: &Vec<String>) -> (r: bool)
    ensures
        r == (strings_seq_view(a@) == strings_seq_view(b@)),
{
    if a.len() != b.len() {
        assert(strings_seq_view(a@).len() != strings_seq_view(b@).len());
        return false;
    }
    let n = a.len();
    let mut i: usize = 0;
    while i < n
        invariant
            i <= n,
            n == a@.len(),
            n == b@.len(),
            forall|k: int| 0 <= k < i ==> a@[k]@ == b@[k]@,
        decreases n - i,
    {
        if a[i] != b[i] {
            assert(strings_seq_view(a@)[i as int] != strings_seq_view(b@)[i as int]);
            return false;
        }
        i = i + 1;
    }
    assert(strings_seq_view(a@) =~= strings_seq_view(b@));
    true
}

pub fn opt_string_equal(a: &Option<String>, b: &Option<String>) -> (r: bool)
    ensures
        r == (opt_string_view(*a) == opt_string_view(*b)),
{
    match (a, b) {
        (Some(x), Some(y)) => *x == *y,
        (None, None) => true,
        _ => false,
    }
}

pub fn opt_strings_equal(a: &Option<Vec<String>>, b: &Option<Vec<String>>) -> (r: bool)
    ensures
        r == (opt_strings_view(*a) == opt_strings_view(*b)),
{
    match (a, b) {
        (Some(x), Some(y)) => strings_equal(x, y),
        (None, None) => true,
        _ => false,
    }
}

/// Whether two actions have the same contents.
pub fn actions_equal(a: &Action, b: &Action) -> (r: bool)
    ensures
        r == (a@ == b@),
{
    a.name == b.name && a.group_id == b.group_id && a.group == b.group && a.trigger_type
        == b.trigger_type && a.trigger_slot == b.trigger_slot && a.gesture == b.gesture
        && opt_string_equal(&a.wheel_trigger, &b.wheel_trigger) && a.action_type == b.action_type
        && opt_string_equal(&a.keystroke, &b.keystroke) && opt_strings_equal(
        &a.modifiers,
        &b.modifiers,
    ) && opt_string_equal(&a.command, &b.command) && opt_string_equal(&a.url, &b.url)
        && opt_string_equal(&a.operation, &b.operation) && opt_strings_equal(
        &a.ignore_exe,
        &b.ignore_exe,
    )
}

/// Whether two configurations have the same contents.
pub fn configs_equal(a: &Config, b: &Config) -> (r: bool)
    ensures
        r == (a@ == b@),
{
    if !(a.trajectory == b.trajectory && strings_equal(&a.ignore_exe, &b.ignore_exe) && a.triggerA
        == b.triggerA && a.triggerB == b.triggerB && a.triggerC == b.triggerC && a.triggerAColor
        == b.triggerAColor && a.triggerBColor == b.triggerBColor && a.triggerCColor
        == b.triggerCColor) {
        return false;
    }
    let ghost ga = crate::groups::groups_view(a.groups@);
    let ghost gb = crate::groups::groups_view(b.groups@);
    if a.groups.len() != b.groups.len() {
        assert(ga.len() != gb.len());
        return false;
    }
    let n = a.groups.len();
    let mut i: usize = 0;
    while i < n
        invariant
            i <= n,
            n == a.groups@.len(),
            n == b.groups@.len(),
            ga == crate::groups::groups_view(a.groups@),
            gb == crate::groups::groups_view(b.groups@),
            forall|k: int| 0 <= k < i ==> ga[k] == gb[k],
        decreases n - i,
    {
        if !(a.groups[i].id == b.groups[i].id && a.groups[i].name == b.groups[i].name) {
            assert(ga[i as int] != gb[i as int]);
            return false;
        }
        i = i + 1;
    }
    assert(ga =~= gb);
    let ghost aa = crate::groups::actions_view(a.actions@);
    let ghost ab = crate::groups::actions_view(b.actions@);
    if a.actions.len() != b.actions.len() {
        assert(aa.len() != ab.len());
        return false;
    }
    let m = a.actions.len();
    let mut j: usize = 0;
    while j < m
        invariant
            j <= m,
            m == a.actions@.len(),
            m == b.actions@.len(),
            aa == crate::groups::actions_view(a.actions@),
            ab == crate::groups::actions_view(b.actions@),
            forall|k: int| 0 <= k < j ==> aa[k] == ab[k],
        decreases m - j,
    {
        if !actions_equal(&a.actions[j], &b.actions[j]) {
            assert(aa[j as int] != ab[j as int]);
            return false;
        }
        j = j + 1;
    }
    assert(aa =~= ab);
    true
}

} // verus!

verus! {

// ---------------------------------------------------------------------------
// Laws of trigger fallbacks and action checks
// ---------------------------------------------------------------------------

/// Each slot keeps what its binding names and otherwise falls back to its own
/// default: a binding naming a mouse button still names that button, a
/// keyboard binding still parses to the same modifiers and key, and a binding
/// that is neither becomes `mouse:right` for slot A, `mouse:middle` for slot
/// B and `mouse:x1` for slot C.
pub proof fn law_trigger_fallbacks(c: ConfigView)
    ensures
        ({
            let n = normalize_config_spec(c);
            &&& crate::binding::mouse_button_spec(c.trigger_a) is None
                && crate::binding::parse_keyboard_spec(c.trigger_a) is None ==> n.trigger_a
                == "mouse:right"@
            &&& crate::binding::mouse_button_spec(c.trigger_b) is None
                && crate::binding::parse_keyboard_spec(c.trigger_b) is None ==> n.trigger_b
                == "mouse:middle"@
            &&& crate::binding::mouse_button_spec(c.trigger_c) is None
                && crate::binding::parse_keyboard_spec(c.trigger_c) is None ==> n.trigger_c
                == "mouse:x1"@
            &&& crate::binding::mouse_button_spec(c.trigger_a) is Some
                ==> crate::binding::mouse_button_spec(n.trigger_a)
                == crate::binding::mouse_button_spec(c.trigger_a)
            &&& crate::binding::mouse_button_spec(c.trigger_b) is Some
                ==> crate::binding::mouse_button_spec(n.trigger_b)
                == crate::binding::mouse_button_spec(c.trigger_b)
            &&& crate::binding::mouse_button_spec(c.trigger_c) is Some
                ==> crate::binding::mouse_button_spec(n.trigger_c)
                == crate::binding::mouse_button_spec(c.trigger_c)
            &&& crate::binding::mouse_button_spec(c.trigger_a) is None
                && crate::binding::parse_keyboard_spec(c.trigger_a) is Some
                ==> crate::binding::parse_keyboard_spec(n.trigger_a)
                == crate::binding::parse_keyboard_spec(c.trigger_a)
            &&& crate::binding::mouse_button_spec(c.trigger_b) is None
                && crate::binding::parse_keyboard_spec(c.trigger_b) is Some
                ==> crate::binding::parse_keyboard_spec(n.trigger_b)
                == crate::binding::parse_keyboard_spec(c.trigger_b)
            &&& crate::binding::mouse_button_spec(c.trigger_c) is None
                && crate::binding::parse_keyboard_spec(c.trigger_c) is Some
                ==> crate::binding::parse_keyboard_spec(n.trigger_c)
                == crate::binding::parse_keyboard_spec(c.trigger_c)
        }),
{
    crate::binding::lemma_mouse_defaults();
    let vs = seq![c.trigger_a, c.trigger_b, c.trigger_c];
    assert forall|k: int| 0 <= k < 3 implies ({
        let v = #[trigger] vs[k];
        let d = if k == 0 {
            "mouse:right"@
        } else if k == 1 {
            "mouse:middle"@
        } else {
            "mouse:x1"@
        };
        &&& crate::binding::mouse_button_spec(v) is Some ==> crate::binding::mouse_button_spec(
            normalize_binding_spec(v, d),
        ) == crate::binding::mouse_button_spec(v)
        &&& crate::binding::mouse_button_spec(v) is None && crate::binding::parse_keyboard_spec(v)
            is Some ==> crate::binding::parse_keyboard_spec(normalize_binding_spec(v, d))
            == crate::binding::parse_keyboard_spec(v)
    }) by {
        let v = vs[k];
        match crate::binding::mouse_button_spec(v) {
            Some(b) => crate::binding::lemma_mouse_round_trip(b),
            None => if crate::binding::parse_keyboard_spec(v) is Some {
                crate::binding::lemma_keyboard_round_trip(v);
            },
        }
    }
    assert(vs[0] == c.trigger_a && vs[1] == c.trigger_b && vs[2] == c.trigger_c);
}

/// The checks an action passes: it is accepted exactly when its trigger type
/// is `gesture` or `wheel`; its action type is one of `keystroke`, `command`,
/// `url` and `window_operation`; its group id is non-blank and names a kept
/// group; a gesture action has a gesture name and the slot `A`, `B` or `C`;
/// and a wheel action has a non-blank wheel trigger.
pub proof fn law_action_checks(a: ActionView, gs: Seq<GroupView>)
    ensures
        action_error(a, gs) is None <==> {
            &&& a.trigger_type == "gesture"@ || a.trigger_type == "wheel"@
            &&& a.action_type == "keystroke"@ || a.action_type == "command"@ || a.action_type
                == "url"@ || a.action_type == "window_operation"@
            &&& trim_seq(a.group_id).len() > 0
            &&& crate::groups::id_used(gs, a.group_id)
            &&& a.trigger_type == "gesture"@ ==> a.gesture.len() > 0 && (a.trigger_slot == "A"@
                || a.trigger_slot == "B"@ || a.trigger_slot == "C"@)
            &&& a.trigger_type == "wheel"@ ==> match a.wheel_trigger {
                Some(w) => trim_seq(w).len() > 0,
                None => false,
            }
        },
{
    reveal_strlit("gesture");
    reveal_strlit("wheel");
}

} // verus!

verus! {

/// Each slot keeps a valid trajectory color (`#` and six hexadecimal digits)
/// and otherwise falls back to its own default: `#FF4D4F` for slot A,
/// `#4C8DFF` for slot B and `#22A06B` for slot C.  The other settings
/// (trajectory flag, ignored programs) are kept, and every action is kept in
/// order, one for one.
pub proof fn law_color_fallbacks(c: ConfigView)
    ensures
        ({
            let n = normalize_config_spec(c);
            &&& n.trigger_a_color == if is_valid_hex_color_spec(c.trigger_a_color) {
                c.trigger_a_color
            } else {
                "#FF4D4F"@
            }
            &&& n.trigger_b_color == if is_valid_hex_color_spec(c.trigger_b_color) {
                c.trigger_b_color
            } else {
                "#4C8DFF"@
            }
            &&& n.trigger_c_color == if is_valid_hex_color_spec(c.trigger_c_color) {
                c.trigger_c_color
            } else {
                "#22A06B"@
            }
            &&& n.trajectory == c.trajectory
            &&& n.ignore_exe == c.ignore_exe
            &&& n.actions.len() == c.actions.len()
        }),
{
    crate::groups::lemma_normalize_groups_output(c.groups, normalize_actions_spec(c.actions));
}

} // verus!

verus! {

/// What normalizing an action does, field by field: an empty trigger type
/// becomes `gesture`; an empty slot of a gesture action becomes `A` and an
/// ASCII slot is put in capitals; a name that trims to `past` becomes
/// `paste` and any other name is kept; the group id and legacy group name are
/// trimmed; the gesture, wheel trigger, action type and action details are
/// kept unchanged.
pub proof fn law_action_normalization(a: ActionView)
    ensures
        ({
            let n = normalize_action_spec(a);
            &&& n.trigger_type == if a.trigger_type.len() == 0 {
                "gesture"@
            } else {
                a.trigger_type
            }
            &&& (n.trigger_type == "gesture"@ && a.trigger_slot.len() == 0 ==> n.trigger_slot
                == "A"@)
            &&& (a.trigger_slot.len() > 0 && crate::text::all_ascii(a.trigger_slot)
                ==> n.trigger_slot == crate::text::ascii_upper(a.trigger_slot))
            &&& (n.trigger_type != "gesture"@ && a.trigger_slot.len() == 0 ==> n.trigger_slot.len()
                == 0)
            &&& n.name == if trim_seq(a.name) == "past"@ {
                "paste"@
            } else {
                a.name
            }
            &&& n.group_id == trim_seq(a.group_id)
            &&& n.group == trim_seq(a.group)
            &&& n.gesture == a.gesture
            &&& n.wheel_trigger == a.wheel_trigger
            &&& n.action_type == a.action_type
            &&& n.keystroke == a.keystroke
            &&& n.modifiers == a.modifiers
            &&& n.command == a.command
            &&& n.url == a.url
            &&& n.operation == a.operation
            &&& n.ignore_exe == a.ignore_exe
        }),
{
    reveal_strlit("A");
    assert(crate::text::all_ascii("A"@));
    assert(crate::text::ascii_upper("A"@) =~= "A"@);
}

} // verus!
