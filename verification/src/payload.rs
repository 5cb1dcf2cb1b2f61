//! The license fields and the payload text that is made of them.

use vstd::prelude::*;
use vstd::string::*;

verus! {

/// Why no license can be made of the given fields.
#[derive(Debug, Clone, Copy, PartialEq, Eq, Structural)]
pub enum LicenseError {
    /// The version text is not two components with one `.` between them.
    InvalidVersionFormat,
}

/// `version` holds a `.` at `at` and nowhere else.
pub open spec fn splits_at(version: Seq<char>, at: int) -> bool {
    &&& 0 <= at < version.len()
    &&& version[at] == '.'
    &&& forall|j: int| 0 <= j < version.len() && j != at ==> version[j] != '.'
}

/// Splitting `version` on `.` gives exactly two components: it holds
/// exactly one `.`. Either component may be empty.
pub open spec fn two_components(version: Seq<char>) -> bool {
    exists|at: int| splits_at(version, at)
}

/// Where the one `.` of a two-component version stands.
pub open spec fn split_point(version: Seq<char>) -> int {
    choose|at: int| splits_at(version, at)
}

/// The component before the `.`.
pub open spec fn major_of(version: Seq<char>) -> Seq<char> {
    version.take(split_point(version))
}

/// The component after the `.`.
pub open spec fn minor_of(version: Seq<char>) -> Seq<char> {
    version.skip(split_point(version) + 1)
}

/// Looks for the one `.` of `version`, which has `total` characters.
fn find_split(version: &str, total: usize) -> (found: Option<usize>)
    requires
        total == version@.len(),
    ensures
        match found {
            Some(at) => splits_at(version@, at as int),
            None => !two_components(version@),
        },
{
    let mut dots: u8 = 0;
    let mut at: usize = 0;
    let mut i: usize = 0;
    for c in it: version.chars()
        invariant
            total == version@.len(),
            it.seq() == version@,
            i == it.index(),
            dots <= 2,
            dots == 0 ==> forall|j: int| 0 <= j < i ==> version@[j] != '.',
            dots == 1 ==> at < i && version@[at as int] == '.' && forall|j: int|
                0 <= j < i && j != at ==> version@[j] != '.',
            dots == 2 ==> exists|j: int, k: int|
                0 <= j < k < i && version@[j] == '.' && version@[k] == '.',
    {
        if c == '.' {
            if dots == 0 {
                at = i;
                dots = 1;
            } else {
                dots = 2;
            }
        }
        i = i + 1;
    }
    if dots == 1 {
        Some(at)
    } else {
        None
    }
}

/// The ten decimal digits, in order.
pub const DIGITS: &'static str = "0123456789";

/// The character that writes the digit `d`.
pub open spec fn digit_char(d: nat) -> char {
    DIGITS@[d as int]
}

/// `n` written in decimal, without leading zeros.
pub open spec fn decimal(n: nat) -> Seq<char>
    decreases n,
{
    if n < 10 {
        seq![digit_char(n)]
    } else {
        decimal(n / 10).push(digit_char(n % 10))
    }
}

/// The payload text of the given fields:
/// `1#<identity>|<major><minor>#<count>#<major>3<minor>6<minor>#0#0#0#`.
pub open spec fn payload_spec(
    identity: Seq<char>,
    major: Seq<char>,
    minor: Seq<char>,
    count: nat,
) -> Seq<char> {
    "1#"@ + identity + "|"@ + major + minor + "#"@ + decimal(count) + "#"@ + major + "3"@ + minor
        + "6"@ + minor + "#0#0#0#"@
}

/// Appends `n` in decimal.
fn push_decimal(text: &mut String, n: u32)
    ensures
        final(text)@ == old(text)@ + decimal(n as nat),
    decreases n,
{
    if n >= 10 {
        push_decimal(text, n / 10);
    }
    proof {
        reveal_strlit("0123456789");
    }
    let d: usize = (n % 10) as usize;
    let digit = DIGITS.substring_ascii(d, d + 1);
    text.append(digit);
}

/// The fields of one license.
pub struct LicenseFields {
    /// Who the license is for.
    pub identity: String,
    /// The version component before the `.`.
    pub major_version: String,
    /// The version component after the `.`.
    pub minor_version: String,
    /// How many seats the license covers.
    pub count: u32,
}

impl LicenseFields {
    /// Neither version component holds a `.`.
    pub open spec fn well_formed(&self) -> bool {
        &&& !self.major_version@.contains('.')
        &&& !self.minor_version@.contains('.')
    }

    /// The payload text of these fields.
    pub open spec fn payload_text(&self) -> Seq<char> {
        payload_spec(
            self.identity@,
            self.major_version@,
            self.minor_version@,
            self.count as nat,
        )
    }

    /// Takes the fields of a license, splitting `version` on its `.`.
    pub fn new(identity: &str, version: &str, count: u32) -> (made: Result<
        LicenseFields,
        LicenseError,
    >)
        ensures
            made is Ok <==> two_components(version@),
            made matches Ok(fields) ==> {
                &&& fields.identity@ == identity@
                &&& fields.major_version@ == major_of(version@)
                &&& fields.minor_version@ == minor_of(version@)
                &&& fields.count == count
                &&& fields.well_formed()
            },
            made matches Err(error) ==> error == LicenseError::InvalidVersionFormat,
    {
        let total = version.unicode_len();
        match find_split(version, total) {
            Some(at) => {
                proof {
                    lemma_split_point_unique(version@, at as int);
                }
                let major = version.substring_char(0, at);
                let minor = version.substring_char(at + 1, total);
                Ok(
                    LicenseFields {
                        identity: identity.to_owned(),
                        major_version: major.to_owned(),
                        minor_version: minor.to_owned(),
                        count,
                    },
                )
            },
            None => Err(LicenseError::InvalidVersionFormat),
        }
    }

    /// Writes the payload text.
    pub fn payload(&self) -> (text: String)
        ensures
            text@ == self.payload_text(),
    {
        let mut text = String::from_str("1#");
        text.append(self.identity.as_str());
        text.append("|");
        text.append(self.major_version.as_str());
        text.append(self.minor_version.as_str());
        text.append("#");
        push_decimal(&mut text, self.count);
        text.append("#");
        text.append(self.major_version.as_str());
        text.append("3");
        text.append(self.minor_version.as_str());
        text.append("6");
        text.append(self.minor_version.as_str());
        text.append("#0#0#0#");
        text
    }
}

/// An outcome with its text taken as a sequence of characters.
pub open spec fn outcome_view(outcome: Result<String, LicenseError>) -> Result<
    Seq<char>,
    LicenseError,
> {
    match outcome {
        Ok(text) => Ok(text@),
        Err(error) => Err(error),
    }
}

/// What building a payload for the given fields comes to: the payload text
/// of the identity, the two components of the version and the count, or the
/// error where the version has no two components.
pub open spec fn payload_outcome(identity: Seq<char>, version: Seq<char>, count: nat) -> Result<
    Seq<char>,
    LicenseError,
> {
    if two_components(version) {
        Ok(payload_spec(identity, major_of(version), minor_of(version), count))
    } else {
        Err(LicenseError::InvalidVersionFormat)
    }
}

/// Builds the payload text for `identity`, `version` and `count`.
pub fn build_payload(identity: &str, version: &str, count: u32) -> (built: Result<
    String,
    LicenseError,
>)
    ensures
        outcome_view(built) == payload_outcome(identity@, version@, count as nat),
{
    match LicenseFields::new(identity, version, count) {
        Ok(fields) => Ok(fields.payload()),
        Err(error) => Err(error),
    }
}

/// A version has at most one split point.
pub proof fn lemma_split_point_unique(version: Seq<char>, at: int)
    requires
        splits_at(version, at),
    ensures
        two_components(version),
        split_point(version) == at,
{
    let chosen = split_point(version);
    assert(splits_at(version, chosen));
}

/// The two components of a version are what stands before and after its
/// `.`, and neither holds a `.`.
pub proof fn lemma_components(version: Seq<char>)
    requires
        two_components(version),
    ensures
        version == major_of(version) + seq!['.'] + minor_of(version),
        !major_of(version).contains('.'),
        !minor_of(version).contains('.'),
{
    let at = split_point(version);
    assert(splits_at(version, at));
    assert(version =~= major_of(version) + seq!['.'] + minor_of(version));
    assert forall|i: int| 0 <= i < major_of(version).len() implies major_of(version)[i]
        != '.' by {
        assert(major_of(version)[i] == version[i]);
    }
    assert forall|i: int| 0 <= i < minor_of(version).len() implies minor_of(version)[i]
        != '.' by {
        assert(minor_of(version)[i] == version[at + 1 + i]);
    }
}

/// The ten digit characters are `0` to `9`, in order, so no two are alike.
pub proof fn lemma_digit_chars()
    ensures
        DIGITS@.len() == 10,
        forall|d: nat| d < 10 ==> #[trigger] digit_char(d) == ('0' as int + d) as char,
{
    reveal_strlit("0123456789");
}

/// A number of one digit has one character, any other has more.
proof fn lemma_decimal_len(n: nat)
    ensures
        decimal(n).len() >= 1,
        n >= 10 ==> decimal(n).len() >= 2,
    decreases n,
{
    if n >= 10 {
        lemma_decimal_len(n / 10);
    }
}

/// Numbers that are written alike are the same number.
pub proof fn lemma_decimal_injective(first: nat, second: nat)
    requires
        decimal(first) == decimal(second),
    ensures
        first == second,
    decreases first,
{
    lemma_digit_chars();
    lemma_decimal_len(first);
    lemma_decimal_len(second);
    if first < 10 {
        assert(decimal(first)[0] == digit_char(first));
        assert(decimal(second)[0] == digit_char(second));
    } else {
        let a = decimal(first / 10);
        let b = decimal(second / 10);
        assert(a == decimal(first).drop_last());
        assert(b == decimal(second).drop_last());
        assert(decimal(first).last() == digit_char(first % 10));
        assert(decimal(second).last() == digit_char(second % 10));
        lemma_decimal_injective(first / 10, second / 10);
    }
}

/// What stands between two equal heads and two equal tails is equal.
proof fn lemma_middle_equal(head: Seq<char>, first: Seq<char>, second: Seq<char>, tail: Seq<char>)
    requires
        head + first + tail == head + second + tail,
    ensures
        first == second,
{
    let a = head + first + tail;
    let b = head + second + tail;
    assert(a.len() == head.len() + first.len() + tail.len());
    assert(b.len() == head.len() + second.len() + tail.len());
    assert forall|i: int| 0 <= i < first.len() implies first[i] == second[i] by {
        assert(a[head.len() + i] == first[i]);
        assert(b[head.len() + i] == second[i]);
    }
    assert(first =~= second);
}

/// Another identity, with the other fields as they were, gives another
/// payload text.
pub proof fn lemma_payload_identity_sensitive(
    identity1: Seq<char>,
    identity2: Seq<char>,
    major: Seq<char>,
    minor: Seq<char>,
    count: nat,
)
    requires
        identity1 != identity2,
    ensures
        payload_spec(identity1, major, minor, count) != payload_spec(
            identity2,
            major,
            minor,
            count,
        ),
{
    let head = "1#"@;
    let tail = "|"@ + major + minor + "#"@ + decimal(count) + "#"@ + major + "3"@ + minor + "6"@
        + minor + "#0#0#0#"@;
    assert(payload_spec(identity1, major, minor, count) =~= head + identity1 + tail);
    assert(payload_spec(identity2, major, minor, count) =~= head + identity2 + tail);
    if head + identity1 + tail == head + identity2 + tail {
        lemma_middle_equal(head, identity1, identity2, tail);
    }
}

/// Another count, with the other fields as they were, gives another payload
/// text.
pub proof fn lemma_payload_count_sensitive(
    identity: Seq<char>,
    major: Seq<char>,
    minor: Seq<char>,
    count1: nat,
    count2: nat,
)
    requires
        count1 != count2,
    ensures
        payload_spec(identity, major, minor, count1) != payload_spec(
            identity,
            major,
            minor,
            count2,
        ),
{
    let head = "1#"@ + identity + "|"@ + major + minor + "#"@;
    let tail = "#"@ + major + "3"@ + minor + "6"@ + minor + "#0#0#0#"@;
    assert(payload_spec(identity, major, minor, count1) =~= head + decimal(count1) + tail);
    assert(payload_spec(identity, major, minor, count2) =~= head + decimal(count2) + tail);
    if head + decimal(count1) + tail == head + decimal(count2) + tail {
        lemma_middle_equal(head, decimal(count1), decimal(count2), tail);
        lemma_decimal_injective(count1, count2);
    }
}

} // verus!
