//! Requests and results exchanged with the ingestion layer, as plain values.

use vstd::prelude::*;
use vstd::string::StringSliceAdditionalSpecFns;

verus! {

/// A queue notification that wraps a request.
#[derive(Debug, Clone)]
pub struct SQSMessage {
    pub notification_type: String,
    pub message_id: String,
    pub sequence_number: String,
    pub topic_arn: String,
    pub message: String,
    pub timestamp: String,
    pub unsubscribe_url: String,
}

/// A request to check a new template for uniqueness.
#[derive(Debug, Clone)]
pub struct UniquenessRequest {
    pub batch_size: Option<usize>,
    pub signup_id: String,
    pub s3_presigned_url: String,
    pub iris_shares_file_hashes: [String; 3],
}

/// A request to delete a stored template.
#[derive(Debug, Clone, Copy, PartialEq, Eq, Structural)]
pub struct IdentityDeletionRequest {
    pub serial_id: u32,
}

/// The encrypted shares of one template, one per party.
#[derive(Debug, Clone)]
pub struct SharesS3Object {
    pub iris_share_0: String,
    pub iris_share_1: String,
    pub iris_share_2: String,
}

/// One party's decrypted share of a template, base64 text per field.
#[derive(Debug, Clone, PartialEq, Eq)]
pub struct IrisCodesJSON {
    pub iris_version: String,
    pub left_iris_code_shares: String,
    pub right_iris_code_shares: String,
    pub left_iris_mask_shares: String,
    pub right_iris_mask_shares: String,
}

/// The outcome of one uniqueness check, as one party reports it.
#[derive(Debug, Clone)]
pub struct ResultEvent {
    pub node_id: usize,
    pub serial_id: Option<u32>,
    pub is_match: bool,
    pub signup_id: String,
    pub matched_serial_ids: Option<Vec<u32>>,
}

impl SharesS3Object {
    /// The share meant for party `party_id`, if there is such a party.
    pub fn get(&self, party_id: usize) -> (r: Option<&String>)
        ensures
            party_id == 0 ==> r == Some(&self.iris_share_0),
            party_id == 1 ==> r == Some(&self.iris_share_1),
            party_id == 2 ==> r == Some(&self.iris_share_2),
            party_id > 2 ==> r is None,
    {
        match party_id {
            0 => Some(&self.iris_share_0),
            1 => Some(&self.iris_share_1),
            2 => Some(&self.iris_share_2),
            _ => None,
        }
    }
}

impl ResultEvent {
    pub fn new(
        node_id: usize,
        serial_id: Option<u32>,
        is_match: bool,
        signup_id: String,
        matched_serial_ids: Option<Vec<u32>>,
    ) -> (r: ResultEvent)
        ensures
            r.node_id == node_id,
            r.serial_id == serial_id,
            r.is_match == is_match,
            r.signup_id == signup_id,
            r.matched_serial_ids == matched_serial_ids,
    {
        ResultEvent { node_id, serial_id, is_match, signup_id, matched_serial_ids }
    }
}

/// Which eye a template comes from.
#[derive(Debug, Clone, Copy, PartialEq, Eq, Structural)]
pub enum Eye {
    Left,
    Right,
}

/// A byte with ASCII upper case mapped to lower case.
pub open spec fn ascii_lower(b: u8) -> u8 {
    if 65 <= b <= 90 {
        (b + 32) as u8
    } else {
        b
    }
}

/// Whether `s`, ignoring ASCII case, is the lower-case word `w`.
pub open spec fn equals_ignoring_case(s: Seq<u8>, w: Seq<u8>) -> bool {
    s.len() == w.len() && forall|i: int| 0 <= i < s.len() ==> ascii_lower(#[trigger] s[i]) == w[i]
}

/// The bytes of "left".
pub open spec fn left_word() -> Seq<u8> {
    seq![108u8, 101u8, 102u8, 116u8]
}

/// The bytes of "right".
pub open spec fn right_word() -> Seq<u8> {
    seq![114u8, 105u8, 103u8, 104u8, 116u8]
}

fn matches_word(s: &[u8], w: &[u8]) -> (r: bool)
    ensures
        r == equals_ignoring_case(s@, w@),
{
    if s.len() != w.len() {
        return false;
    }
    let mut i: usize = 0;
    while i < s.len()
        invariant
            i <= s@.len(),
            s@.len() == w@.len(),
            forall|j: int| 0 <= j < i ==> ascii_lower(#[trigger] s@[j]) == w@[j],
        decreases s@.len() - i,
    {
        let b = s[i];
        let lower = if 65 <= b && b <= 90 {
            b + 32
        } else {
            b
        };
        if lower != w[i] {
            return false;
        }
        i = i + 1;
    }
    true
}

/// Relies on the `format!` macro of std: it writes the message.
#[verifier::external_body]
fn invalid_eye_message(s: &str) -> String {
    format!("Invalid eye: {}", s)
}

/// Reads "left" or "right", in any ASCII case.
pub fn parse_eye(s: &str) -> (r: Result<Eye, String>)
    ensures
        r == Ok::<Eye, String>(Eye::Left) <==> equals_ignoring_case(s.spec_bytes(), left_word()),
        r == Ok::<Eye, String>(Eye::Right) <==> equals_ignoring_case(s.spec_bytes(), right_word()),
        r is Err <==> !equals_ignoring_case(s.spec_bytes(), left_word()) && !equals_ignoring_case(
            s.spec_bytes(),
            right_word(),
        ),
{
    let bytes = s.as_bytes();
    let left: [u8; 4] = [108u8, 101u8, 102u8, 116u8];
    let right: [u8; 5] = [114u8, 105u8, 103u8, 104u8, 116u8];
    assert(left@ =~= left_word());
    assert(right@ =~= right_word());
    if matches_word(bytes, left.as_slice()) {
        Ok(Eye::Left)
    } else if matches_word(bytes, right.as_slice()) {
        Ok(Eye::Right)
    } else {
        Err(invalid_eye_message(s))
    }
}

impl core::str::FromStr for Eye {
    type Err = String;

    fn from_str(s: &str) -> Result<Eye, String> {
        parse_eye(s)
    }
}

} // verus!
