//! Validated values for the settings that the selector and the execution
//! engine are handed: each type is built from text by its `from_str`, which
//! refuses text that does not fit.

use crate::pattern::{
    pattern_matches, pattern_search, search, SUBSCRIPTION_ID_PATTERN, VMSS_NAME_PATTERN,
    VMSS_NODE_PATTERN,
};
use crate::text::{chars_of, has_char, number_of, parse_u32, string_of};
use vstd::prelude::*;

verus! {

/// Why a piece of text was refused.
#[derive(Debug, Clone, Copy, PartialEq, Eq, Structural)]
pub enum ArgumentValidationError {
    /// A log prefix holds a `:` or a space.
    InvalidLogPrefix,
    /// The text is no number, or none that fits.
    InvalidNumericInput,
    /// The number is under the least value allowed.
    LessThanMinimum,
    /// The text is no name of a scale-set node.
    InvalidNodeName,
    /// The text is no name of a scale set.
    InvalidVmssName,
    /// The text is no GUID.
    InvalidSubscriptionId,
    /// The text could not be accepted at all.
    UnknownError,
}

impl ArgumentValidationError {
    /// The sentence that explains the error to a user.
    pub open spec fn text(self) -> Seq<char> {
        match self {
            ArgumentValidationError::InvalidLogPrefix => "Log prefix must not have a ':' or space in it"@,
            ArgumentValidationError::InvalidNumericInput => "Invalid number"@,
            ArgumentValidationError::LessThanMinimum => "Input was less than the minimum value"@,
            ArgumentValidationError::InvalidNodeName => "Node name must be a vmss node:  eg k8s-pool-131414-vmss0003ax"@,
            ArgumentValidationError::InvalidVmssName => "VMSS name must be something like:  eg k8s-pool-131414-vmss"@,
            ArgumentValidationError::InvalidSubscriptionId => "Subscription IDs must be in the form of a GUID '12345678-1234-1234-1234-1234567890ab'"@,
            ArgumentValidationError::UnknownError => "Unknown error"@,
        }
    }

    /// The sentence that explains the error to a user.
    pub fn message(&self) -> (message: &'static str)
        ensures
            message@ == self.text(),
    {
        match self {
            ArgumentValidationError::InvalidLogPrefix => "Log prefix must not have a ':' or space in it",
            ArgumentValidationError::InvalidNumericInput => "Invalid number",
            ArgumentValidationError::LessThanMinimum => "Input was less than the minimum value",
            ArgumentValidationError::InvalidNodeName => "Node name must be a vmss node:  eg k8s-pool-131414-vmss0003ax",
            ArgumentValidationError::InvalidVmssName => "VMSS name must be something like:  eg k8s-pool-131414-vmss",
            ArgumentValidationError::InvalidSubscriptionId => "Subscription IDs must be in the form of a GUID '12345678-1234-1234-1234-1234567890ab'",
            ArgumentValidationError::UnknownError => "Unknown error",
        }
    }
}

/// A log prefix holds neither a `:` nor a space.
pub open spec fn valid_log_prefix(s: Seq<char>) -> bool {
    !s.contains(':') && !s.contains(' ')
}

/// Text put in front of each log line.
#[derive(Debug)]
pub struct LogPrefix(String);

impl View for LogPrefix {
    type V = Seq<char>;

    closed spec fn view(&self) -> Seq<char> {
        self.0@
    }
}

impl LogPrefix {
    #[verifier::type_invariant]
    spec fn well_formed(self) -> bool {
        valid_log_prefix(self.0@)
    }

    /// Accepts `input` unless it holds a `:` or a space.
    pub fn from_str(input: &str) -> (prefix: Result<LogPrefix, ArgumentValidationError>)
        ensures
            valid_log_prefix(input@) ==> (prefix matches Ok(p) && p@ == input@),
            !valid_log_prefix(input@) ==> prefix == Err::<LogPrefix, _>(
                ArgumentValidationError::InvalidLogPrefix,
            ),
    {
        let chars = chars_of(input);
        if has_char(&chars, ':') || has_char(&chars, ' ') {
            return Err(ArgumentValidationError::InvalidLogPrefix);
        }
        Ok(LogPrefix(string_of(&chars)))
    }

    /// The prefix as a string.
    pub fn to_string(self) -> (s: String)
        ensures
            s@ == self@,
            valid_log_prefix(s@),
    {
        proof {
            use_type_invariant(&self);
        }
        self.0
    }
}

/// The number that `s` writes, where it is one of at least `minimum`.
pub open spec fn checked_number(s: Seq<char>, minimum: u32) -> Result<
    u32,
    ArgumentValidationError,
> {
    match parse_u32(s) {
        None => Err(ArgumentValidationError::InvalidNumericInput),
        Some(n) => if n < minimum {
            Err(ArgumentValidationError::LessThanMinimum)
        } else {
            Ok(n)
        },
    }
}

/// Reads the number that `input` writes and holds it against `minimum`.
pub fn number_at_least(input: &str, minimum: u32) -> (number: Result<u32, ArgumentValidationError>)
    ensures
        number == checked_number(input@, minimum),
{
    let chars = chars_of(input);
    match number_of(&chars) {
        None => Err(ArgumentValidationError::InvalidNumericInput),
        Some(n) => if n < minimum {
            Err(ArgumentValidationError::LessThanMinimum)
        } else {
            Ok(n)
        },
    }
}

/// Succeeds if `input` writes a number of at least `minimum`, and says
/// otherwise which of the two fails.
pub fn value_minimum_check(input: &str, minimum: u32) -> (checked: Result<
    (),
    ArgumentValidationError,
>)
    ensures
        checked == match checked_number(input@, minimum) {
            Ok(_) => Ok::<(), ArgumentValidationError>(()),
            Err(e) => Err(e),
        },
{
    match number_at_least(input, minimum) {
        Ok(_) => Ok(()),
        Err(e) => Err(e),
    }
}

/// The least number of new nodes that may be asked for.
pub const MINIMUM_NEW_UPDATED_NODES: u32 = 0;

/// The least number of history entries that may be kept.
pub const MINIMUM_HISTORY_SIZE: u32 = 2;

/// The least number of candidates that may be asked for.
pub const MINIMUM_CANDIDATES: u32 = 1;

/// The least age in days that may be set as an image's greatest age.
pub const MINIMUM_IMAGE_AGE: u32 = 0;

/// How many new nodes to add once the scale set holds the new image.
#[derive(Debug)]
pub struct NewUpdatedNodes(u32);

impl View for NewUpdatedNodes {
    type V = u32;

    closed spec fn view(&self) -> u32 {
        self.0
    }
}

impl NewUpdatedNodes {
    /// Reads a number of nodes.
    pub fn from_str(input: &str) -> (nodes: Result<NewUpdatedNodes, ArgumentValidationError>)
        ensures
            match checked_number(input@, MINIMUM_NEW_UPDATED_NODES) {
                Ok(n) => nodes matches Ok(v) && v@ == n,
                Err(e) => nodes == Err::<NewUpdatedNodes, _>(e),
            },
    {
        match number_at_least(input, MINIMUM_NEW_UPDATED_NODES) {
            Ok(n) => Ok(NewUpdatedNodes(n)),
            Err(e) => Err(e),
        }
    }

    /// The number.
    pub fn as_u32(self) -> (n: u32)
        ensures
            n == self@,
    {
        self.0
    }
}

/// How many entries of the update history are kept: two at least.
#[derive(Debug)]
pub struct HistorySize(u32);

impl View for HistorySize {
    type V = u32;

    closed spec fn view(&self) -> u32 {
        self.0
    }
}

impl HistorySize {
    #[verifier::type_invariant]
    spec fn well_formed(self) -> bool {
        self.0 >= MINIMUM_HISTORY_SIZE
    }

    /// Reads a history size.
    pub fn from_str(input: &str) -> (size: Result<HistorySize, ArgumentValidationError>)
        ensures
            match checked_number(input@, MINIMUM_HISTORY_SIZE) {
                Ok(n) => size matches Ok(v) && v@ == n,
                Err(e) => size == Err::<HistorySize, _>(e),
            },
    {
        match number_at_least(input, MINIMUM_HISTORY_SIZE) {
            Ok(n) => Ok(HistorySize(n)),
            Err(e) => Err(e),
        }
    }

    /// The number, which is at least two.
    pub fn as_u32(self) -> (n: u32)
        ensures
            n == self@,
            n >= MINIMUM_HISTORY_SIZE,
    {
        proof {
            use_type_invariant(&self);
        }
        self.0
    }
}

/// How many candidates a selection must find at least: one or more.
#[derive(Debug)]
pub struct MinimumCandidates(u32);

impl View for MinimumCandidates {
    type V = u32;

    closed spec fn view(&self) -> u32 {
        self.0
    }
}

impl MinimumCandidates {
    #[verifier::type_invariant]
    spec fn well_formed(self) -> bool {
        self.0 >= MINIMUM_CANDIDATES
    }

    /// Reads a number of candidates.
    pub fn from_str(input: &str) -> (candidates: Result<MinimumCandidates, ArgumentValidationError>)
        ensures
            match checked_number(input@, MINIMUM_CANDIDATES) {
                Ok(n) => candidates matches Ok(v) && v@ == n,
                Err(e) => candidates == Err::<MinimumCandidates, _>(e),
            },
    {
        match number_at_least(input, MINIMUM_CANDIDATES) {
            Ok(n) => Ok(MinimumCandidates(n)),
            Err(e) => Err(e),
        }
    }

    /// The number, which is at least one.
    pub fn as_u32(self) -> (n: u32)
        ensures
            n == self@,
            n >= MINIMUM_CANDIDATES,
    {
        proof {
            use_type_invariant(&self);
        }
        self.0
    }
}

/// The greatest age in days of a prototype image; zero sets no limit.
#[derive(Debug)]
pub struct MaximumImageAge(u32);

impl View for MaximumImageAge {
    type V = u32;

    closed spec fn view(&self) -> u32 {
        self.0
    }
}

impl MaximumImageAge {
    /// Reads a number of days.
    pub fn from_str(input: &str) -> (age: Result<MaximumImageAge, ArgumentValidationError>)
        ensures
            match checked_number(input@, MINIMUM_IMAGE_AGE) {
                Ok(n) => age matches Ok(v) && v@ == n,
                Err(e) => age == Err::<MaximumImageAge, _>(e),
            },
    {
        match number_at_least(input, MINIMUM_IMAGE_AGE) {
            Ok(n) => Ok(MaximumImageAge(n)),
            Err(e) => Err(e),
        }
    }

    /// The number of days.
    pub fn as_u32(self) -> (n: u32)
        ensures
            n == self@,
    {
        self.0
    }
}

/// What a search for a name's pattern says of the name: accepted where the
/// pattern was found, `mismatch` where it was not, and `UnknownError` where
/// the search could not be made.
pub open spec fn acceptance(found: Option<bool>, mismatch: ArgumentValidationError) -> Result<
    (),
    ArgumentValidationError,
> {
    match found {
        Some(true) => Ok(()),
        Some(false) => Err(mismatch),
        None => Err(ArgumentValidationError::UnknownError),
    }
}

/// Turns the answer of a search for a name's pattern into what is said of
/// the name.
pub fn accept(found: Option<bool>, mismatch: ArgumentValidationError) -> (accepted: Result<
    (),
    ArgumentValidationError,
>)
    ensures
        accepted == acceptance(found, mismatch),
{
    match found {
        Some(true) => Ok(()),
        Some(false) => Err(mismatch),
        None => Err(ArgumentValidationError::UnknownError),
    }
}

/// Succeeds if `name` is the name of a scale-set node: the whole of it
/// matches `VMSS_NODE_PATTERN`.
pub fn is_vmss_node(name: &str) -> (accepted: Result<(), ArgumentValidationError>)
    ensures
        accepted == acceptance(
            pattern_search(VMSS_NODE_PATTERN@, name@),
            ArgumentValidationError::InvalidNodeName,
        ),
{
    accept(search(VMSS_NODE_PATTERN, name), ArgumentValidationError::InvalidNodeName)
}

/// Succeeds if `name` is the name of a scale set: the whole of it matches
/// `VMSS_NAME_PATTERN`.
pub fn is_vmss_name(name: &str) -> (accepted: Result<(), ArgumentValidationError>)
    ensures
        accepted == acceptance(
            pattern_search(VMSS_NAME_PATTERN@, name@),
            ArgumentValidationError::InvalidVmssName,
        ),
{
    accept(search(VMSS_NAME_PATTERN, name), ArgumentValidationError::InvalidVmssName)
}

/// Succeeds if `name` is a subscription identifier: the whole of it matches
/// `SUBSCRIPTION_ID_PATTERN`.
pub fn is_subscription_id(name: &str) -> (accepted: Result<(), ArgumentValidationError>)
    ensures
        accepted == acceptance(
            pattern_search(SUBSCRIPTION_ID_PATTERN@, name@),
            ArgumentValidationError::InvalidSubscriptionId,
        ),
{
    accept(search(SUBSCRIPTION_ID_PATTERN, name), ArgumentValidationError::InvalidSubscriptionId)
}

/// The name of one node of a scale set.
#[derive(Debug)]
pub struct NodeName(String);

impl View for NodeName {
    type V = Seq<char>;

    closed spec fn view(&self) -> Seq<char> {
        self.0@
    }
}

impl NodeName {
    #[verifier::type_invariant]
    spec fn well_formed(self) -> bool {
        pattern_matches(VMSS_NODE_PATTERN@, self.0@)
    }

    /// Accepts `input` if it is the name of a scale-set node.
    pub fn from_str(input: &str) -> (name: Result<NodeName, ArgumentValidationError>)
        ensures
            match acceptance(
                pattern_search(VMSS_NODE_PATTERN@, input@),
                ArgumentValidationError::InvalidNodeName,
            ) {
                Ok(_) => name matches Ok(n) && n@ == input@,
                Err(e) => name == Err::<NodeName, _>(e),
            },
    {
        match is_vmss_node(input) {
            Ok(_) => Ok(NodeName(input.to_owned())),
            Err(e) => Err(e),
        }
    }

    /// The name as text, which matches `VMSS_NODE_PATTERN`.
    pub fn as_str(&self) -> (s: &str)
        ensures
            s@ == self@,
            pattern_matches(VMSS_NODE_PATTERN@, s@),
    {
        proof {
            use_type_invariant(self);
        }
        self.0.as_str()
    }
}

/// The name of a scale set.
#[derive(Debug)]
pub struct VmssName(String);

impl View for VmssName {
    type V = Seq<char>;

    closed spec fn view(&self) -> Seq<char> {
        self.0@
    }
}

impl VmssName {
    #[verifier::type_invariant]
    spec fn well_formed(self) -> bool {
        pattern_matches(VMSS_NAME_PATTERN@, self.0@)
    }

    /// Accepts `input` if it is the name of a scale set.
    pub fn from_str(input: &str) -> (name: Result<VmssName, ArgumentValidationError>)
        ensures
            match acceptance(
                pattern_search(VMSS_NAME_PATTERN@, input@),
                ArgumentValidationError::InvalidVmssName,
            ) {
                Ok(_) => name matches Ok(n) && n@ == input@,
                Err(e) => name == Err::<VmssName, _>(e),
            },
    {
        match is_vmss_name(input) {
            Ok(_) => Ok(VmssName(input.to_owned())),
            Err(e) => Err(e),
        }
    }

    /// The name as text, which matches `VMSS_NAME_PATTERN`.
    pub fn as_str(&self) -> (s: &str)
        ensures
            s@ == self@,
            pattern_matches(VMSS_NAME_PATTERN@, s@),
    {
        proof {
            use_type_invariant(self);
        }
        self.0.as_str()
    }

    /// The name as a string.
    pub fn to_string(self) -> (s: String)
        ensures
            s@ == self@,
            pattern_matches(VMSS_NAME_PATTERN@, s@),
    {
        proof {
            use_type_invariant(&self);
        }
        self.0
    }
}

/// The identifier of a subscription.
#[derive(Debug)]
pub struct SubscriptionId(String);

impl View for SubscriptionId {
    type V = Seq<char>;

    closed spec fn view(&self) -> Seq<char> {
        self.0@
    }
}

impl SubscriptionId {
    #[verifier::type_invariant]
    spec fn well_formed(self) -> bool {
        pattern_matches(SUBSCRIPTION_ID_PATTERN@, self.0@)
    }

    /// Accepts `input` if it is a subscription identifier.
    pub fn from_str(input: &str) -> (id: Result<SubscriptionId, ArgumentValidationError>)
        ensures
            match acceptance(
                pattern_search(SUBSCRIPTION_ID_PATTERN@, input@),
                ArgumentValidationError::InvalidSubscriptionId,
            ) {
                Ok(_) => id matches Ok(n) && n@ == input@,
                Err(e) => id == Err::<SubscriptionId, _>(e),
            },
    {
        match is_subscription_id(input) {
            Ok(_) => Ok(SubscriptionId(input.to_owned())),
            Err(e) => Err(e),
        }
    }

    /// The identifier as text, which matches `SUBSCRIPTION_ID_PATTERN`.
    pub fn as_str(&self) -> (s: &str)
        ensures
            s@ == self@,
            pattern_matches(SUBSCRIPTION_ID_PATTERN@, s@),
    {
        proof {
            use_type_invariant(self);
        }
        self.0.as_str()
    }
}

/// How many seconds one unit of a duration lasts: `s`, `m`, `h` and `d` are
/// second, minute, hour and day.
pub open spec fn unit_seconds(unit: char) -> Option<nat> {
    if unit == 's' {
        Some(1)
    } else if unit == 'm' {
        Some(60)
    } else if unit == 'h' {
        Some(3600)
    } else if unit == 'd' {
        Some(86400)
    } else {
        None
    }
}

/// The seconds that a written duration lasts: a number, then one unit or
/// none, which means seconds. `None` where the text is not of that form or
/// the seconds do not fit in 32 bits.
pub open spec fn duration_seconds(s: Seq<char>) -> Option<u32> {
    let (digits, factor) = if s.len() > 0 && unit_seconds(s.last()) is Some {
        (s.drop_last(), unit_seconds(s.last())->Some_0)
    } else {
        (s, 1nat)
    };
    match parse_u32(digits) {
        Some(n) => if n * factor <= u32::MAX {
            Some((n * factor) as u32)
        } else {
            None
        },
        None => None,
    }
}

/// The seconds of one unit of a duration, where `unit` names one.
pub fn seconds_of_unit(unit: char) -> (seconds: Option<u32>)
    ensures
        match unit_seconds(unit) {
            Some(n) => seconds == Some(n as u32) && n <= 86400,
            None => seconds is None,
        },
{
    if unit == 's' {
        Some(1)
    } else if unit == 'm' {
        Some(60)
    } else if unit == 'h' {
        Some(60 * 60)
    } else if unit == 'd' {
        Some(60 * 60 * 24)
    } else {
        None
    }
}

/// For how long a node must have been ready before it is a candidate, in
/// seconds.
#[derive(Debug)]
pub struct MinimumReadyTime(u32);

impl View for MinimumReadyTime {
    type V = u32;

    closed spec fn view(&self) -> u32 {
        self.0
    }
}

impl MinimumReadyTime {
    /// Reads a duration: a number with one of the units `s`, `m`, `h`, `d`
    /// behind it, or with none, which means seconds. Text of another form,
    /// and a duration of more seconds than 32 bits hold, is no number.
    pub fn from_str(input: &str) -> (time: Result<MinimumReadyTime, ArgumentValidationError>)
        ensures
            match duration_seconds(input@) {
                Some(n) => time matches Ok(t) && t@ == n,
                None => time == Err::<MinimumReadyTime, _>(
                    ArgumentValidationError::InvalidNumericInput,
                ),
            },
    {
        let mut chars = chars_of(input);
        let mut factor: u32 = 1;
        if chars.len() > 0 {
            match seconds_of_unit(chars[chars.len() - 1]) {
                Some(seconds) => {
                    factor = seconds;
                    chars.pop();
                },
                None => {},
            }
        }
        match number_of(&chars) {
            Some(n) => {
                assert(n * factor <= 0xffff_ffff * 86400) by (nonlinear_arith)
                    requires
                        n <= 0xffff_ffff,
                        factor <= 86400,
                ;
                let seconds: u64 = (n as u64) * (factor as u64);
                if seconds > 0xffff_ffff {
                    Err(ArgumentValidationError::InvalidNumericInput)
                } else {
                    Ok(MinimumReadyTime(seconds as u32))
                }
            },
            None => Err(ArgumentValidationError::InvalidNumericInput),
        }
    }

    /// Builds the time from a number of seconds.
    pub fn from_seconds(seconds: u32) -> (time: MinimumReadyTime)
        ensures
            time@ == seconds,
    {
        MinimumReadyTime(seconds)
    }

    /// The time in seconds.
    pub fn as_u32(self) -> (n: u32)
        ensures
            n == self@,
    {
        self.0
    }

    /// The time in seconds.
    pub fn seconds(&self) -> (n: u32)
        ensures
            n == self@,
    {
        self.0
    }
}

/// The first four characters of the name of an image gallery.
pub open spec fn sig_prefix() -> Seq<char> {
    seq!['S', 'I', 'G', '_']
}

/// The name of the image gallery of the cluster named `name`: `SIG_`, then
/// `name` with each `-` turned into `_`, which a gallery's name may hold.
pub open spec fn vmss_sig(name: Seq<char>) -> Seq<char> {
    sig_prefix() + name.map_values(
        |c: char|
            if c == '-' {
                '_'
            } else {
                c
            },
    )
}

/// The name of the image gallery for a cluster's unique name, most often the
/// name of its resource group.
pub fn get_vmss_sig(name: &str) -> (sig: String)
    ensures
        sig@ == vmss_sig(name@),
{
    let chars = chars_of(name);
    let mut out: Vec<char> = Vec::new();
    out.push('S');
    out.push('I');
    out.push('G');
    out.push('_');
    assert(out@ =~= sig_prefix());
    let mut i: usize = 0;
    while i < chars.len()
        invariant
            i <= chars.len(),
            chars@ == name@,
            out@ == vmss_sig(name@.take(i as int)),
        decreases chars.len() - i,
    {
        let c = chars[i];
        out.push(if c == '-' { '_' } else { c });
        assert(out@ =~= vmss_sig(name@.take(i + 1)));
        i += 1;
    }
    assert(name@.take(chars.len() as int) =~= name@);
    string_of(&out)
}

} // verus!
