//! What the demonstration producer answers.
use vstd::prelude::*;
use vstd::slice::slice_to_vec;
use vstd::string::{StringExecFns, StringSliceAdditionalSpecFns};
use vstd::utf8::encode_utf8;

use crate::ndn::{Data, DataView, Interest};
use crate::text::name_text;

verus! {

/// The content of the answer to an Interest for `name`: the UTF-8 text
/// "Data for " followed by the name.
pub open spec fn answer_content(name: Seq<Seq<u8>>) -> Seq<u8> {
    encode_utf8("Data for "@ + name_text(name))
}

/// The Data packet with which the producer answers an Interest: the Interest's
/// name, with `answer_content` as content, and no MetaInfo or signature.
pub fn answer_interest(interest: &Interest) -> (d: Data)
    ensures
        d@ == (DataView {
            name: interest@.name,
            meta_info: None,
            content: answer_content(interest@.name),
            signature: None,
        }),
{
    let mut text = String::from_str("Data for ");
    let name_str = interest.name().to_string();
    text.append(name_str.as_str());
    let content = slice_to_vec(text.as_str().as_bytes());
    Data::new(interest.name().duplicate(), content)
}

} // verus!
