//! The naming rule for a derived output file: the source file's stem, a
//! `_new` tag, a counter once the plain name is taken, and the extension.
//! Probing the file system for a free name is the caller's business;
//! this module only builds each candidate name.

use crate::numbering::decimal_of;
use crate::numbering::decimal_string;
use vstd::prelude::*;
use vstd::string::StringExecFns;

verus! {

/// The candidate name for attempt `counter`: `stem_new.ext` first, then
/// `stem_new_1.ext`, `stem_new_2.ext`, and so on.
pub open spec fn candidate_name_of(stem: Seq<char>, ext: Seq<char>, counter: int) -> Seq<char> {
    if counter <= 0 {
        stem + "_new."@ + ext
    } else {
        stem + "_new_"@ + decimal_of(counter) + "."@ + ext
    }
}

/// Builds the candidate file name for attempt `counter`, per
/// `candidate_name_of`.
pub fn candidate_file_name(stem: &str, ext: &str, counter: u32) -> (r: String)
    ensures
        r@ == candidate_name_of(stem@, ext@, counter as int),
{
    let mut out = String::from_str(stem);
    if counter == 0 {
        out.append("_new.");
        proof {
            reveal_strlit("_new.");
        }
    } else {
        out.append("_new_");
        let num = decimal_string(counter as i64);
        out.append(num.as_str());
        out.append(".");
        proof {
            reveal_strlit("_new_");
            reveal_strlit(".");
        }
    }
    out.append(ext);
    proof {
        assert(out@ =~= candidate_name_of(stem@, ext@, counter as int));
    }
    out
}

} // verus!
