//! The blocklist compiler: which Adblock rules can be compiled, what pattern
//! and kind each one gives, and the pruning of patterns that others subsume.

use crate::bytes::{
    bytes_eq, copy_range, find_first, find_first_exec, find_last_exec, is_alnum, is_alnum_byte,
    lower_copy, lower_seq, occurs_at, push_range, starts_with, starts_with_exec, trim, trim_range,
};
use crate::dac::automaton::{
    build_dac, dac_fits, pair_seqs, dac_patterns, dac_standard, distinct_patterns, find_overlapping, map_of,
};
use crate::dac::pattern_type::{anchor_ok, encode_tag, PatternKind, PatternType, TAG_MASK};
use crate::dac::psl::{filter_in_bounds, filter_of, prepare_adblock_filter, AdblockFilter};
use crate::bytes::{find_bytes, occurs_at as occurs};
use publicsuffix2::List;
use daachorse::DoubleArrayAhoCorasick;
use vstd::prelude::*;

verus! {

/// Options that make a rule unusable here (first-party, response-modifying and the like).
pub open spec fn rejecting_option(k: Seq<u8>) -> bool {
    // ~script
    ||| k == seq![126u8, 115, 99, 114, 105, 112, 116]
    // ~all
    ||| k == seq![126u8, 97, 108, 108]
    // badfilter
    ||| k == seq![98u8, 97, 100, 102, 105, 108, 116, 101, 114]
    // ~third-party
    ||| k == seq![126u8, 116, 104, 105, 114, 100, 45, 112, 97, 114, 116, 121]
    // ~3p
    ||| k == seq![126u8, 51, 112]
    // ~strict3p
    ||| k == seq![126u8, 115, 116, 114, 105, 99, 116, 51, 112]
    // ~strict-third-party
    ||| k == seq![126u8, 115, 116, 114, 105, 99, 116, 45, 116, 104, 105, 114, 100, 45, 112, 97, 114, 116, 121]
    // first-party
    ||| k == seq![102u8, 105, 114, 115, 116, 45, 112, 97, 114, 116, 121]
    // 1p
    ||| k == seq![49u8, 112]
    // strict1p
    ||| k == seq![115u8, 116, 114, 105, 99, 116, 49, 112]
    // strict-first-party
    ||| k == seq![115u8, 116, 114, 105, 99, 116, 45, 102, 105, 114, 115, 116, 45, 112, 97, 114, 116, 121]
    // denyallow
    ||| k == seq![100u8, 101, 110, 121, 97, 108, 108, 111, 119]
    // to
    ||| k == seq![116u8, 111]
    // header
    ||| k == seq![104u8, 101, 97, 100, 101, 114]
    // inline-script
    ||| k == seq![105u8, 110, 108, 105, 110, 101, 45, 115, 99, 114, 105, 112, 116]
    // inline-font
    ||| k == seq![105u8, 110, 108, 105, 110, 101, 45, 102, 111, 110, 116]
    // ipaddress
    ||| k == seq![105u8, 112, 97, 100, 100, 114, 101, 115, 115]
    // permissions
    ||| k == seq![112u8, 101, 114, 109, 105, 115, 115, 105, 111, 110, 115]
    // csp
    ||| k == seq![99u8, 115, 112]
    // removeparam
    ||| k == seq![114u8, 101, 109, 111, 118, 101, 112, 97, 114, 97, 109]
    // redirect
    ||| k == seq![114u8, 101, 100, 105, 114, 101, 99, 116]
    // empty
    ||| k == seq![101u8, 109, 112, 116, 121]
    // mp4
    ||| k == seq![109u8, 112, 52]
    // redirect-rule
    ||| k == seq![114u8, 101, 100, 105, 114, 101, 99, 116, 45, 114, 117, 108, 101]
    // urlskip
    ||| k == seq![117u8, 114, 108, 115, 107, 105, 112]
    // replace
    ||| k == seq![114u8, 101, 112, 108, 97, 99, 101]
    // urltransform
    ||| k == seq![117u8, 114, 108, 116, 114, 97, 110, 115, 102, 111, 114, 109]
    // cookie
    ||| k == seq![99u8, 111, 111, 107, 105, 101]
    // popup
    ||| k == seq![112u8, 111, 112, 117, 112]
    // popunder
    ||| k == seq![112u8, 111, 112, 117, 110, 100, 101, 114]
    // match-case
    ||| k == seq![109u8, 97, 116, 99, 104, 45, 99, 97, 115, 101]
}

fn is_rejecting_option(k: &[u8]) -> (r: bool)
    ensures
        r == rejecting_option(k@),
{
    // ~script
    let w0: [u8; 7] = [126, 115, 99, 114, 105, 112, 116];
    // ~all
    let w1: [u8; 4] = [126, 97, 108, 108];
    // badfilter
    let w2: [u8; 9] = [98, 97, 100, 102, 105, 108, 116, 101, 114];
    // ~third-party
    let w3: [u8; 12] = [126, 116, 104, 105, 114, 100, 45, 112, 97, 114, 116, 121];
    // ~3p
    let w4: [u8; 3] = [126, 51, 112];
    // ~strict3p
    let w5: [u8; 9] = [126, 115, 116, 114, 105, 99, 116, 51, 112];
    // ~strict-third-party
    let w6: [u8; 19] = [126, 115, 116, 114, 105, 99, 116, 45, 116, 104, 105, 114, 100, 45, 112, 97, 114, 116, 121];
    // first-party
    let w7: [u8; 11] = [102, 105, 114, 115, 116, 45, 112, 97, 114, 116, 121];
    // 1p
    let w8: [u8; 2] = [49, 112];
    // strict1p
    let w9: [u8; 8] = [115, 116, 114, 105, 99, 116, 49, 112];
    // strict-first-party
    let w10: [u8; 18] = [115, 116, 114, 105, 99, 116, 45, 102, 105, 114, 115, 116, 45, 112, 97, 114, 116, 121];
    // denyallow
    let w11: [u8; 9] = [100, 101, 110, 121, 97, 108, 108, 111, 119];
    // to
    let w12: [u8; 2] = [116, 111];
    // header
    let w13: [u8; 6] = [104, 101, 97, 100, 101, 114];
    // inline-script
    let w14: [u8; 13] = [105, 110, 108, 105, 110, 101, 45, 115, 99, 114, 105, 112, 116];
    // inline-font
    let w15: [u8; 11] = [105, 110, 108, 105, 110, 101, 45, 102, 111, 110, 116];
    // ipaddress
    let w16: [u8; 9] = [105, 112, 97, 100, 100, 114, 101, 115, 115];
    // permissions
    let w17: [u8; 11] = [112, 101, 114, 109, 105, 115, 115, 105, 111, 110, 115];
    // csp
    let w18: [u8; 3] = [99, 115, 112];
    // removeparam
    let w19: [u8; 11] = [114, 101, 109, 111, 118, 101, 112, 97, 114, 97, 109];
    // redirect
    let w20: [u8; 8] = [114, 101, 100, 105, 114, 101, 99, 116];
    // empty
    let w21: [u8; 5] = [101, 109, 112, 116, 121];
    // mp4
    let w22: [u8; 3] = [109, 112, 52];
    // redirect-rule
    let w23: [u8; 13] = [114, 101, 100, 105, 114, 101, 99, 116, 45, 114, 117, 108, 101];
    // urlskip
    let w24: [u8; 7] = [117, 114, 108, 115, 107, 105, 112];
    // replace
    let w25: [u8; 7] = [114, 101, 112, 108, 97, 99, 101];
    // urltransform
    let w26: [u8; 12] = [117, 114, 108, 116, 114, 97, 110, 115, 102, 111, 114, 109];
    // cookie
    let w27: [u8; 6] = [99, 111, 111, 107, 105, 101];
    // popup
    let w28: [u8; 5] = [112, 111, 112, 117, 112];
    // popunder
    let w29: [u8; 8] = [112, 111, 112, 117, 110, 100, 101, 114];
    // match-case
    let w30: [u8; 10] = [109, 97, 116, 99, 104, 45, 99, 97, 115, 101];
    proof {
        assert(w0@ =~= seq![126u8, 115, 99, 114, 105, 112, 116]);
        assert(w1@ =~= seq![126u8, 97, 108, 108]);
        assert(w2@ =~= seq![98u8, 97, 100, 102, 105, 108, 116, 101, 114]);
        assert(w3@ =~= seq![126u8, 116, 104, 105, 114, 100, 45, 112, 97, 114, 116, 121]);
        assert(w4@ =~= seq![126u8, 51, 112]);
        assert(w5@ =~= seq![126u8, 115, 116, 114, 105, 99, 116, 51, 112]);
        assert(w6@ =~= seq![126u8, 115, 116, 114, 105, 99, 116, 45, 116, 104, 105, 114, 100, 45, 112, 97, 114, 116, 121]);
        assert(w7@ =~= seq![102u8, 105, 114, 115, 116, 45, 112, 97, 114, 116, 121]);
        assert(w8@ =~= seq![49u8, 112]);
        assert(w9@ =~= seq![115u8, 116, 114, 105, 99, 116, 49, 112]);
        assert(w10@ =~= seq![115u8, 116, 114, 105, 99, 116, 45, 102, 105, 114, 115, 116, 45, 112, 97, 114, 116, 121]);
        assert(w11@ =~= seq![100u8, 101, 110, 121, 97, 108, 108, 111, 119]);
        assert(w12@ =~= seq![116u8, 111]);
        assert(w13@ =~= seq![104u8, 101, 97, 100, 101, 114]);
        assert(w14@ =~= seq![105u8, 110, 108, 105, 110, 101, 45, 115, 99, 114, 105, 112, 116]);
        assert(w15@ =~= seq![105u8, 110, 108, 105, 110, 101, 45, 102, 111, 110, 116]);
        assert(w16@ =~= seq![105u8, 112, 97, 100, 100, 114, 101, 115, 115]);
        assert(w17@ =~= seq![112u8, 101, 114, 109, 105, 115, 115, 105, 111, 110, 115]);
        assert(w18@ =~= seq![99u8, 115, 112]);
        assert(w19@ =~= seq![114u8, 101, 109, 111, 118, 101, 112, 97, 114, 97, 109]);
        assert(w20@ =~= seq![114u8, 101, 100, 105, 114, 101, 99, 116]);
        assert(w21@ =~= seq![101u8, 109, 112, 116, 121]);
        assert(w22@ =~= seq![109u8, 112, 52]);
        assert(w23@ =~= seq![114u8, 101, 100, 105, 114, 101, 99, 116, 45, 114, 117, 108, 101]);
        assert(w24@ =~= seq![117u8, 114, 108, 115, 107, 105, 112]);
        assert(w25@ =~= seq![114u8, 101, 112, 108, 97, 99, 101]);
        assert(w26@ =~= seq![117u8, 114, 108, 116, 114, 97, 110, 115, 102, 111, 114, 109]);
        assert(w27@ =~= seq![99u8, 111, 111, 107, 105, 101]);
        assert(w28@ =~= seq![112u8, 111, 112, 117, 112]);
        assert(w29@ =~= seq![112u8, 111, 112, 117, 110, 100, 101, 114]);
        assert(w30@ =~= seq![109u8, 97, 116, 99, 104, 45, 99, 97, 115, 101]);
    }
    bytes_eq(k, w0.as_slice())
        || bytes_eq(k, w1.as_slice())
        || bytes_eq(k, w2.as_slice())
        || bytes_eq(k, w3.as_slice())
        || bytes_eq(k, w4.as_slice())
        || bytes_eq(k, w5.as_slice())
        || bytes_eq(k, w6.as_slice())
        || bytes_eq(k, w7.as_slice())
        || bytes_eq(k, w8.as_slice())
        || bytes_eq(k, w9.as_slice())
        || bytes_eq(k, w10.as_slice())
        || bytes_eq(k, w11.as_slice())
        || bytes_eq(k, w12.as_slice())
        || bytes_eq(k, w13.as_slice())
        || bytes_eq(k, w14.as_slice())
        || bytes_eq(k, w15.as_slice())
        || bytes_eq(k, w16.as_slice())
        || bytes_eq(k, w17.as_slice())
        || bytes_eq(k, w18.as_slice())
        || bytes_eq(k, w19.as_slice())
        || bytes_eq(k, w20.as_slice())
        || bytes_eq(k, w21.as_slice())
        || bytes_eq(k, w22.as_slice())
        || bytes_eq(k, w23.as_slice())
        || bytes_eq(k, w24.as_slice())
        || bytes_eq(k, w25.as_slice())
        || bytes_eq(k, w26.as_slice())
        || bytes_eq(k, w27.as_slice())
        || bytes_eq(k, w28.as_slice())
        || bytes_eq(k, w29.as_slice())
        || bytes_eq(k, w30.as_slice())
}

/// Options that restrict a rule to third-party requests.
pub open spec fn third_party_option(k: Seq<u8>) -> bool {
    // third-party
    ||| k == seq![116u8, 104, 105, 114, 100, 45, 112, 97, 114, 116, 121]
    // 3p
    ||| k == seq![51u8, 112]
    // strict3p
    ||| k == seq![115u8, 116, 114, 105, 99, 116, 51, 112]
    // strict-third-party
    ||| k == seq![115u8, 116, 114, 105, 99, 116, 45, 116, 104, 105, 114, 100, 45, 112, 97, 114, 116, 121]
}

fn is_third_party_option(k: &[u8]) -> (r: bool)
    ensures
        r == third_party_option(k@),
{
    // third-party
    let w0: [u8; 11] = [116, 104, 105, 114, 100, 45, 112, 97, 114, 116, 121];
    // 3p
    let w1: [u8; 2] = [51, 112];
    // strict3p
    let w2: [u8; 8] = [115, 116, 114, 105, 99, 116, 51, 112];
    // strict-third-party
    let w3: [u8; 18] = [115, 116, 114, 105, 99, 116, 45, 116, 104, 105, 114, 100, 45, 112, 97, 114, 116, 121];
    proof {
        assert(w0@ =~= seq![116u8, 104, 105, 114, 100, 45, 112, 97, 114, 116, 121]);
        assert(w1@ =~= seq![51u8, 112]);
        assert(w2@ =~= seq![115u8, 116, 114, 105, 99, 116, 51, 112]);
        assert(w3@ =~= seq![115u8, 116, 114, 105, 99, 116, 45, 116, 104, 105, 114, 100, 45, 112, 97, 114, 116, 121]);
    }
    bytes_eq(k, w0.as_slice())
        || bytes_eq(k, w1.as_slice())
        || bytes_eq(k, w2.as_slice())
        || bytes_eq(k, w3.as_slice())
}

/// Resource-type options that include scripts.
pub open spec fn script_option(k: Seq<u8>) -> bool {
    // script
    ||| k == seq![115u8, 99, 114, 105, 112, 116]
    // all
    ||| k == seq![97u8, 108, 108]
}

fn is_script_option(k: &[u8]) -> (r: bool)
    ensures
        r == script_option(k@),
{
    // script
    let w0: [u8; 6] = [115, 99, 114, 105, 112, 116];
    // all
    let w1: [u8; 3] = [97, 108, 108];
    proof {
        assert(w0@ =~= seq![115u8, 99, 114, 105, 112, 116]);
        assert(w1@ =~= seq![97u8, 108, 108]);
    }
    bytes_eq(k, w0.as_slice())
        || bytes_eq(k, w1.as_slice())
}

/// Resource-type options that leave scripts out.
pub open spec fn other_type_option(k: Seq<u8>) -> bool {
    // image
    ||| k == seq![105u8, 109, 97, 103, 101]
    // css
    ||| k == seq![99u8, 115, 115]
    // stylesheet
    ||| k == seq![115u8, 116, 121, 108, 101, 115, 104, 101, 101, 116]
    // frame
    ||| k == seq![102u8, 114, 97, 109, 101]
    // subdocument
    ||| k == seq![115u8, 117, 98, 100, 111, 99, 117, 109, 101, 110, 116]
    // document
    ||| k == seq![100u8, 111, 99, 117, 109, 101, 110, 116]
    // media
    ||| k == seq![109u8, 101, 100, 105, 97]
    // font
    ||| k == seq![102u8, 111, 110, 116]
    // ping
    ||| k == seq![112u8, 105, 110, 103]
    // websocket
    ||| k == seq![119u8, 101, 98, 115, 111, 99, 107, 101, 116]
    // other
    ||| k == seq![111u8, 116, 104, 101, 114]
    // object
    ||| k == seq![111u8, 98, 106, 101, 99, 116]
    // webrtc
    ||| k == seq![119u8, 101, 98, 114, 116, 99]
    // csp_report
    ||| k == seq![99u8, 115, 112, 95, 114, 101, 112, 111, 114, 116]
    // xmlhttprequest
    ||| k == seq![120u8, 109, 108, 104, 116, 116, 112, 114, 101, 113, 117, 101, 115, 116]
    // xhr
    ||| k == seq![120u8, 104, 114]
}

fn is_other_type_option(k: &[u8]) -> (r: bool)
    ensures
        r == other_type_option(k@),
{
    // image
    let w0: [u8; 5] = [105, 109, 97, 103, 101];
    // css
    let w1: [u8; 3] = [99, 115, 115];
    // stylesheet
    let w2: [u8; 10] = [115, 116, 121, 108, 101, 115, 104, 101, 101, 116];
    // frame
    let w3: [u8; 5] = [102, 114, 97, 109, 101];
    // subdocument
    let w4: [u8; 11] = [115, 117, 98, 100, 111, 99, 117, 109, 101, 110, 116];
    // document
    let w5: [u8; 8] = [100, 111, 99, 117, 109, 101, 110, 116];
    // media
    let w6: [u8; 5] = [109, 101, 100, 105, 97];
    // font
    let w7: [u8; 4] = [102, 111, 110, 116];
    // ping
    let w8: [u8; 4] = [112, 105, 110, 103];
    // websocket
    let w9: [u8; 9] = [119, 101, 98, 115, 111, 99, 107, 101, 116];
    // other
    let w10: [u8; 5] = [111, 116, 104, 101, 114];
    // object
    let w11: [u8; 6] = [111, 98, 106, 101, 99, 116];
    // webrtc
    let w12: [u8; 6] = [119, 101, 98, 114, 116, 99];
    // csp_report
    let w13: [u8; 10] = [99, 115, 112, 95, 114, 101, 112, 111, 114, 116];
    // xmlhttprequest
    let w14: [u8; 14] = [120, 109, 108, 104, 116, 116, 112, 114, 101, 113, 117, 101, 115, 116];
    // xhr
    let w15: [u8; 3] = [120, 104, 114];
    proof {
        assert(w0@ =~= seq![105u8, 109, 97, 103, 101]);
        assert(w1@ =~= seq![99u8, 115, 115]);
        assert(w2@ =~= seq![115u8, 116, 121, 108, 101, 115, 104, 101, 101, 116]);
        assert(w3@ =~= seq![102u8, 114, 97, 109, 101]);
        assert(w4@ =~= seq![115u8, 117, 98, 100, 111, 99, 117, 109, 101, 110, 116]);
        assert(w5@ =~= seq![100u8, 111, 99, 117, 109, 101, 110, 116]);
        assert(w6@ =~= seq![109u8, 101, 100, 105, 97]);
        assert(w7@ =~= seq![102u8, 111, 110, 116]);
        assert(w8@ =~= seq![112u8, 105, 110, 103]);
        assert(w9@ =~= seq![119u8, 101, 98, 115, 111, 99, 107, 101, 116]);
        assert(w10@ =~= seq![111u8, 116, 104, 101, 114]);
        assert(w11@ =~= seq![111u8, 98, 106, 101, 99, 116]);
        assert(w12@ =~= seq![119u8, 101, 98, 114, 116, 99]);
        assert(w13@ =~= seq![99u8, 115, 112, 95, 114, 101, 112, 111, 114, 116]);
        assert(w14@ =~= seq![120u8, 109, 108, 104, 116, 116, 112, 114, 101, 113, 117, 101, 115, 116]);
        assert(w15@ =~= seq![120u8, 104, 114]);
    }
    bytes_eq(k, w0.as_slice())
        || bytes_eq(k, w1.as_slice())
        || bytes_eq(k, w2.as_slice())
        || bytes_eq(k, w3.as_slice())
        || bytes_eq(k, w4.as_slice())
        || bytes_eq(k, w5.as_slice())
        || bytes_eq(k, w6.as_slice())
        || bytes_eq(k, w7.as_slice())
        || bytes_eq(k, w8.as_slice())
        || bytes_eq(k, w9.as_slice())
        || bytes_eq(k, w10.as_slice())
        || bytes_eq(k, w11.as_slice())
        || bytes_eq(k, w12.as_slice())
        || bytes_eq(k, w13.as_slice())
        || bytes_eq(k, w14.as_slice())
        || bytes_eq(k, w15.as_slice())
}

/// Options that list the hosts a rule applies on.
pub open spec fn domain_option(k: Seq<u8>) -> bool {
    // domain
    ||| k == seq![100u8, 111, 109, 97, 105, 110]
    // from
    ||| k == seq![102u8, 114, 111, 109]
}

fn is_domain_option(k: &[u8]) -> (r: bool)
    ensures
        r == domain_option(k@),
{
    // domain
    let w0: [u8; 6] = [100, 111, 109, 97, 105, 110];
    // from
    let w1: [u8; 4] = [102, 114, 111, 109];
    proof {
        assert(w0@ =~= seq![100u8, 111, 109, 97, 105, 110]);
        assert(w1@ =~= seq![102u8, 114, 111, 109]);
    }
    bytes_eq(k, w0.as_slice())
        || bytes_eq(k, w1.as_slice())
}

/// The option that lists request methods.
pub open spec fn method_option(k: Seq<u8>) -> bool {
    // method
    ||| k == seq![109u8, 101, 116, 104, 111, 100]
}

fn is_method_option(k: &[u8]) -> (r: bool)
    ensures
        r == method_option(k@),
{
    // method
    let w0: [u8; 6] = [109, 101, 116, 104, 111, 100];
    proof {
        assert(w0@ =~= seq![109u8, 101, 116, 104, 111, 100]);
    }
    bytes_eq(k, w0.as_slice())
}

/// The GET method, in lower case.
pub open spec fn get_method(k: Seq<u8>) -> bool {
    // get
    ||| k == seq![103u8, 101, 116]
}

fn is_get_method(k: &[u8]) -> (r: bool)
    ensures
        r == get_method(k@),
{
    // get
    let w0: [u8; 3] = [103, 101, 116];
    proof {
        assert(w0@ =~= seq![103u8, 101, 116]);
    }
    bytes_eq(k, w0.as_slice())
}

/// A domain label run followed by a dot: at least one byte of letters,
/// digits and `-` (not at either end), then `.`.
pub open spec fn domain_part_with_dot(s: Seq<u8>) -> bool {
    &&& s.len() >= 2
    &&& s[s.len() - 1] == 46
    &&& forall|i: int| 0 <= i < s.len() - 1 ==> (is_alnum(#[trigger] s[i]) || s[i] == 45)
    &&& s[0] != 45
    &&& s[s.len() - 2] != 45
}

pub fn is_valid_domain_part_with_dot(s: &[u8]) -> (r: bool)
    ensures
        r == domain_part_with_dot(s@),
{
    let n = s.len();
    if n < 2 || s[n - 1] != 46 {
        return false;
    }
    let mut i: usize = 0;
    while i < n - 1
        invariant
            n == s@.len(),
            n >= 2,
            i <= n - 1,
            forall|j: int| 0 <= j < i ==> (is_alnum(#[trigger] s@[j]) || s@[j] == 45),
        decreases n - 1 - i,
    {
        let c = s[i];
        if !(is_alnum_byte(c) || c == 45) {
            return false;
        }
        i += 1;
    }
    s[0] != 45 && s[n - 2] != 45
}

/// What the options of a rule have said so far.
#[derive(Clone, Copy, Debug, PartialEq, Eq, Structural)]
pub struct OptState {
    pub positive_types: bool,
    pub script_allowed: bool,
    pub get_allowed: bool,
    pub positive_methods: bool,
    pub third_party: bool,
}

pub open spec fn opt_init() -> OptState {
    OptState {
        positive_types: false,
        script_allowed: false,
        get_allowed: false,
        positive_methods: false,
        third_party: false,
    }
}

/// One entry of a `method=` list; `None` when it negates GET.
pub open spec fn method_step(st: OptState, raw: Seq<u8>) -> Option<OptState> {
    let m = trim(raw);
    if m.len() == 0 {
        Some(st)
    } else {
        let inv = m[0] == 126;
        let name = if inv {
            m.subrange(1, m.len() as int)
        } else {
            m
        };
        let is_get = get_method(lower_seq(name));
        if is_get && inv {
            None
        } else {
            Some(
                OptState {
                    get_allowed: st.get_allowed || is_get,
                    positive_methods: st.positive_methods || !inv,
                    ..st
                },
            )
        }
    }
}

/// The `|`-separated entries of a `method=` list, left to right.
pub open spec fn methods_fold(st: Option<OptState>, s: Seq<u8>) -> Option<OptState>
    decreases s.len(),
{
    match st {
        None => None,
        Some(x) => {
            let j = find_first(s, 124, 0);
            if j < 0 || j >= s.len() {
                method_step(x, s)
            } else {
                methods_fold(method_step(x, s.subrange(0, j)), s.subrange(j + 1, s.len() as int))
            }
        },
    }
}

/// Some `|`-separated entry of a `domain=` list names a host (is not negated).
pub open spec fn domain_includes(s: Seq<u8>) -> bool
    decreases s.len(),
{
    let j = find_first(s, 124, 0);
    let d = trim(if j < 0 || j >= s.len() {
        s
    } else {
        s.subrange(0, j)
    });
    if d.len() > 0 && d[0] != 126 {
        true
    } else if j < 0 || j >= s.len() {
        false
    } else {
        domain_includes(s.subrange(j + 1, s.len() as int))
    }
}

/// One `,`-separated option; `None` when it makes the rule unusable.
pub open spec fn option_step(st: OptState, raw: Seq<u8>) -> Option<OptState> {
    let opt = trim(raw);
    let eq = find_first(opt, 61, 0);
    let key = lower_seq(opt.subrange(0, eq));
    let has_val = eq < opt.len();
    let v = if has_val {
        opt.subrange(eq + 1, opt.len() as int)
    } else {
        Seq::empty()
    };
    if opt.len() == 0 {
        Some(st)
    } else if rejecting_option(key) {
        None
    } else if domain_option(key) {
        if has_val && domain_includes(v) {
            None
        } else {
            Some(st)
        }
    } else if method_option(key) {
        if has_val && v.len() > 0 {
            methods_fold(Some(st), v)
        } else {
            Some(st)
        }
    } else if third_party_option(key) {
        Some(OptState { third_party: true, ..st })
    } else if script_option(key) {
        Some(OptState { positive_types: true, script_allowed: true, ..st })
    } else if other_type_option(key) {
        Some(OptState { positive_types: true, ..st })
    } else {
        Some(st)
    }
}

/// The `,`-separated options of a rule, left to right.
pub open spec fn options_fold(st: Option<OptState>, s: Seq<u8>) -> Option<OptState>
    decreases s.len(),
{
    match st {
        None => None,
        Some(x) => {
            let j = find_first(s, 44, 0);
            if j < 0 || j >= s.len() {
                option_step(x, s)
            } else {
                options_fold(option_step(x, s.subrange(0, j)), s.subrange(j + 1, s.len() as int))
            }
        },
    }
}

/// Whether a rule with these options can be compiled, and if so whether it
/// is restricted to third-party requests.
pub open spec fn script_rule(options: Seq<u8>) -> Option<bool> {
    match options_fold(Some(opt_init()), options) {
        None => None,
        Some(st) => if (st.positive_types && !st.script_allowed) || (st.positive_methods
            && !st.get_allowed) {
            None
        } else {
            Some(st.third_party)
        },
    }
}

fn apply_method(st: OptState, raw: &[u8]) -> (r: Option<OptState>)
    ensures
        r == method_step(st, raw@),
{
    let (lo, hi) = trim_range(raw);
    let m = &raw[lo..hi];
    if m.len() == 0 {
        return Some(st);
    }
    let inv = m[0] == 126;
    let name = if inv {
        &m[1..m.len()]
    } else {
        m
    };
    let lowered = lower_copy(name);
    let is_get = is_get_method(lowered.as_slice());
    if is_get && inv {
        None
    } else {
        Some(
            OptState {
                get_allowed: st.get_allowed || is_get,
                positive_methods: st.positive_methods || !inv,
                ..st
            },
        )
    }
}

fn apply_methods(st: OptState, s: &[u8]) -> (r: Option<OptState>)
    ensures
        r == methods_fold(Some(st), s@),
{
    let mut cur = st;
    let mut rest: &[u8] = s;
    loop
        invariant
            methods_fold(Some(cur), rest@) == methods_fold(Some(st), s@),
        decreases rest@.len(),
    {
        let j = find_first_exec(rest, 124, 0);
        if j >= rest.len() {
            return apply_method(cur, rest);
        }
        match apply_method(cur, &rest[0..j]) {
            Some(next) => {
                cur = next;
                rest = &rest[j + 1..rest.len()];
            },
            None => {
                assert(methods_fold(None, rest@.subrange(j + 1, rest@.len() as int)) == None::<OptState>);
                return None;
            },
        }
    }
}

fn includes_domain(s: &[u8]) -> (r: bool)
    ensures
        r == domain_includes(s@),
{
    let mut rest: &[u8] = s;
    loop
        invariant
            domain_includes(rest@) == domain_includes(s@),
        decreases rest@.len(),
    {
        let j = find_first_exec(rest, 124, 0);
        let d = if j >= rest.len() {
            rest
        } else {
            &rest[0..j]
        };
        let (lo, hi) = trim_range(d);
        if hi > lo && d[lo] != 126 {
            return true;
        }
        if j >= rest.len() {
            return false;
        }
        rest = &rest[j + 1..rest.len()];
    }
}

fn apply_option(st: OptState, raw: &[u8]) -> (r: Option<OptState>)
    ensures
        r == option_step(st, raw@),
{
    let (lo, hi) = trim_range(raw);
    let opt = &raw[lo..hi];
    if opt.len() == 0 {
        return Some(st);
    }
    let eq = find_first_exec(opt, 61, 0);
    let key = lower_copy(&opt[0..eq]);
    let has_val = eq < opt.len();
    let v: &[u8] = if has_val {
        &opt[eq + 1..opt.len()]
    } else {
        &opt[0..0]
    };
    assert(v@ =~= (if has_val {
        opt@.subrange(eq + 1, opt@.len() as int)
    } else {
        Seq::empty()
    }));
    let k = key.as_slice();
    if is_rejecting_option(k) {
        None
    } else if is_domain_option(k) {
        if has_val && includes_domain(v) {
            None
        } else {
            Some(st)
        }
    } else if is_method_option(k) {
        if has_val && v.len() > 0 {
            apply_methods(st, v)
        } else {
            Some(st)
        }
    } else if is_third_party_option(k) {
        Some(OptState { third_party: true, ..st })
    } else if is_script_option(k) {
        Some(OptState { positive_types: true, script_allowed: true, ..st })
    } else if is_other_type_option(k) {
        Some(OptState { positive_types: true, ..st })
    } else {
        Some(st)
    }
}

/// Whether a rule with these `$` options can be compiled: `None` when some
/// option makes it unusable (first-party and response-modifying options,
/// host includes, methods other than GET, resource types without scripts);
/// otherwise whether the rule is restricted to third-party requests.
pub fn is_valid_script_rule(options: &[u8]) -> (r: Option<bool>)
    ensures
        r == script_rule(options@),
{
    let init = OptState {
        positive_types: false,
        script_allowed: false,
        get_allowed: false,
        positive_methods: false,
        third_party: false,
    };
    let mut cur = init;
    let mut rest: &[u8] = options;
    loop
        invariant
            options_fold(Some(cur), rest@) == options_fold(Some(opt_init()), options@),
        decreases rest@.len(),
    {
        let j = find_first_exec(rest, 44, 0);
        if j >= rest.len() {
            return match apply_option(cur, rest) {
                Some(fin) => if (fin.positive_types && !fin.script_allowed) || (fin.positive_methods
                    && !fin.get_allowed) {
                    None
                } else {
                    Some(fin.third_party)
                },
                None => None,
            };
        }
        match apply_option(cur, &rest[0..j]) {
            Some(next) => {
                cur = next;
                rest = &rest[j + 1..rest.len()];
            },
            None => {
                assert(options_fold(None, rest@.subrange(j + 1, rest@.len() as int)) == None::<OptState>);
                return None;
            },
        }
    }
}

/// Pattern `p` with kind word `k` is subsumed in `m`: some pattern of a
/// greater kind word occurs inside `p`, anchored as its kind demands (with
/// `sub` the subdomain range of `p`).
pub open spec fn subsumed(m: Map<Seq<u8>, u32>, p: Seq<u8>, k: u32, sub: Option<(usize, usize)>) -> bool {
    exists|q: Seq<u8>, at: int|
        m.contains_key(q) && #[trigger] occurs_at(p, q, at) && m[q] > k && anchor_ok(
            PatternType(m[q] & TAG_MASK),
            p,
            at,
            sub,
        )
}

/// The patterns of `m` that no other pattern of `m` subsumes.
pub open spec fn pruned(m: Map<Seq<u8>, u32>, sub_of: spec_fn(Seq<u8>) -> Option<(usize, usize)>) -> Map<
    Seq<u8>,
    u32,
> {
    Map::new(|p: Seq<u8>| m.contains_key(p) && !subsumed(m, p, m[p], sub_of(p)), |p: Seq<u8>| m[p])
}

/// Pruning is idempotent: once the subsumed patterns are gone, a second pass
/// (with the same subdomain answers) removes nothing more.
pub proof fn lemma_pruning_idempotent(
    m: Map<Seq<u8>, u32>,
    sub_of: spec_fn(Seq<u8>) -> Option<(usize, usize)>,
)
    ensures
        pruned(pruned(m, sub_of), sub_of) == pruned(m, sub_of),
{
    let once = pruned(m, sub_of);
    assert forall|p: Seq<u8>| once.contains_key(p) implies !subsumed(once, p, once[p], sub_of(p)) by {
        if subsumed(once, p, once[p], sub_of(p)) {
            let (q, at) = choose|q: Seq<u8>, at: int|
                once.contains_key(q) && #[trigger] occurs_at(p, q, at) && once[q] > once[p]
                    && anchor_ok(PatternType(once[q] & TAG_MASK), p, at, sub_of(p));
            assert(m.contains_key(q) && occurs_at(p, q, at));
        }
    }
    assert(pruned(once, sub_of) =~= once);
}

/// A set of one pattern prunes to itself: nothing else can subsume it.
pub proof fn lemma_pruned_single(p: Seq<u8>, k: u32, sub_of: spec_fn(Seq<u8>) -> Option<(usize, usize)>)
    ensures
        pruned(map![p => k], sub_of) == map![p => k],
{
    let m = map![p => k];
    assert(!subsumed(m, p, k, sub_of(p)));
    assert(pruned(m, sub_of) =~= m);
}

/// Where pattern `p` stands in a list of distinct patterns.
pub open spec fn index_in(v: Seq<(Vec<u8>, u32)>, p: Seq<u8>) -> int {
    choose|i: int| 0 <= i < v.len() && (#[trigger] v[i]).0@ == p
}

/// In a list of distinct patterns, `map_of` gives each pattern its own value.
pub proof fn lemma_map_of_at(v: Seq<(Vec<u8>, u32)>, i: int)
    requires
        distinct_patterns(v),
        0 <= i < v.len(),
    ensures
        map_of(v).contains_key(v[i].0@),
        map_of(v)[v[i].0@] == v[i].1,
        index_in(v, v[i].0@) == i,
{
    let k = v[i].0@;
    assert(exists|j: int| 0 <= j < v.len() && (#[trigger] v[j]).0@ == k);
    let j = choose|j: int| 0 <= j < v.len() && (#[trigger] v[j]).0@ == k;
    if j != i {
        if j < i {
            assert(v[j].0@ != v[i].0@);
        } else {
            assert(v[i].0@ != v[j].0@);
        }
    }
}

/// Keeps the patterns that no other pattern subsumes. `subs[i]` is the
/// subdomain range of pattern `i`; `d` is the automaton of the patterns.
pub fn prune_overlaps_with(
    pats: &Vec<(Vec<u8>, u32)>,
    subs: &Vec<Option<(usize, usize)>>,
    d: &DoubleArrayAhoCorasick<u32>,
) -> (r: Vec<(Vec<u8>, u32)>)
    requires
        distinct_patterns(pats@),
        subs@.len() == pats@.len(),
        dac_patterns(*d) == map_of(pats@),
        dac_standard(*d),
    ensures
        distinct_patterns(r@),
        map_of(r@) == pruned(map_of(pats@), |p: Seq<u8>| subs@[index_in(pats@, p)]),
{
    let ghost m = map_of(pats@);
    let ghost sub_of = |p: Seq<u8>| subs@[index_in(pats@, p)];
    let mut r: Vec<(Vec<u8>, u32)> = Vec::new();
    let ghost mut srcs: Seq<int> = Seq::empty();
    let mut i: usize = 0;
    while i < pats.len()
        invariant
            i <= pats@.len(),
            distinct_patterns(pats@),
            subs@.len() == pats@.len(),
            dac_patterns(*d) == m,
            m == map_of(pats@),
            dac_standard(*d),
            sub_of == (|p: Seq<u8>| subs@[index_in(pats@, p)]),
            r@.len() == srcs.len(),
            forall|x: int|
                0 <= x < srcs.len() ==> 0 <= #[trigger] srcs[x] < i && r@[x].0@ == pats@[srcs[x]].0@
                    && r@[x].1 == pats@[srcs[x]].1 && !subsumed(
                    m,
                    pats@[srcs[x]].0@,
                    pats@[srcs[x]].1,
                    subs@[srcs[x]],
                ),
            forall|x: int, y: int| 0 <= x < y < srcs.len() ==> #[trigger] srcs[x] < #[trigger] srcs[y],
            forall|j: int|
                0 <= j < i && !subsumed(m, pats@[j].0@, pats@[j].1, subs@[j]) ==> exists|x: int|
                    0 <= x < srcs.len() && #[trigger] srcs[x] == j,
        decreases pats@.len() - i,
    {
        let p = &pats[i].0;
        let k = pats[i].1;
        let sub_i = subs[i];
        let hits = find_overlapping(d, p.as_slice());
        let plen: usize = p.len();
        let ghost srcs_before = srcs;
        let mut found = false;
        let mut h: usize = 0;
        while h < hits.len() && !found
            invariant
                h <= hits@.len(),
                plen as int == p@.len(),
                dac_patterns(*d) == m,
                p@ == pats@[i as int].0@,
                k == pats@[i as int].1,
                sub_i == subs@[i as int],
                i < pats@.len(),
                forall|x: int|
                    0 <= x < hits@.len() ==> {
                        let (s, e, v) = #[trigger] hits@[x];
                        &&& s <= e <= p@.len()
                        &&& m.contains_key(p@.subrange(s as int, e as int))
                        &&& m[p@.subrange(s as int, e as int)] == v
                    },
                forall|q: Seq<u8>, at: int|
                    m.contains_key(q) && #[trigger] occurs_at(p@, q, at) ==> exists|x: int|
                        0 <= x < hits@.len() && (#[trigger] hits@[x]) == (
                            at as usize,
                            (at + q.len()) as usize,
                            m[q],
                        ),
                found ==> subsumed(m, p@, k, sub_i),
                !found ==> forall|x: int|
                    0 <= x < h ==> !((#[trigger] hits@[x]).2 > k && anchor_ok(
                        PatternType(hits@[x].2 & TAG_MASK),
                        p@,
                        hits@[x].0 as int,
                        sub_i,
                    )),
            decreases hits@.len() - h + (if found {
                0int
            } else {
                1int
            }),
        {
            let (s, e, v) = hits[h];
            if v > k && PatternType::from(v).is_match_at(p.as_slice(), s, sub_i) {
                proof {
                    let q = p@.subrange(s as int, e as int);
                    assert(occurs_at(p@, q, s as int));
                }
                found = true;
            } else {
                h += 1;
            }
        }
        if !found {
            proof {
                assert forall|q: Seq<u8>, at: int|
                    m.contains_key(q) && #[trigger] occurs_at(p@, q, at) implies !(m[q] > k
                        && anchor_ok(PatternType(m[q] & TAG_MASK), p@, at, sub_i)) by {
                    let x = choose|x: int|
                        0 <= x < hits@.len() && (#[trigger] hits@[x]) == (
                            at as usize,
                            (at + q.len()) as usize,
                            dac_patterns(*d)[q],
                        );
                    assert(p@.len() <= usize::MAX);
                    assert(hits@[x].0 as int == at);
                }
            }
            let copy = copy_range(p.as_slice(), 0, p.len());
            proof {
                assert(p@.subrange(0, p@.len() as int) =~= p@);
            }
            r.push((copy, k));
            proof {
                srcs = srcs.push(i as int);
            }
        }
        proof {
            assert forall|j: int|
                0 <= j < i + 1 && !subsumed(m, pats@[j].0@, pats@[j].1, subs@[j]) implies exists|x: int|
                0 <= x < srcs.len() && #[trigger] srcs[x] == j by {
                if j == i {
                    assert(!found);
                    assert(srcs[srcs.len() - 1] == j);
                } else {
                    let x = choose|x: int| 0 <= x < srcs_before.len() && #[trigger] srcs_before[x] == j;
                    assert(srcs[x] == j);
                }
            }
        }
        i += 1;
    }
    proof {
        assert forall|x: int, y: int| 0 <= x < y < r@.len() implies (#[trigger] r@[x]).0@ != (
        #[trigger] r@[y]).0@ by {
            assert(srcs[x] < srcs[y]);
        }
        assert forall|x: int| 0 <= x < r@.len() implies (#[trigger] r@[x]).0@.len() > 0 by {
            assert(pats@[srcs[x]].0@.len() > 0);
        }
        let pr = pruned(m, sub_of);
        assert forall|p: Seq<u8>| #[trigger] map_of(r@).contains_key(p) == pr.contains_key(p) by {
            if map_of(r@).contains_key(p) {
                let x = choose|x: int| 0 <= x < r@.len() && (#[trigger] r@[x]).0@ == p;
                lemma_map_of_at(pats@, srcs[x]);
            }
            if pr.contains_key(p) {
                let j = choose|j: int| 0 <= j < pats@.len() && (#[trigger] pats@[j]).0@ == p;
                lemma_map_of_at(pats@, j);
                let x = choose|x: int| 0 <= x < srcs.len() && #[trigger] srcs[x] == j;
                assert(r@[x].0@ == p);
            }
        }
        assert forall|p: Seq<u8>| map_of(r@).contains_key(p) implies #[trigger] map_of(r@)[p]
            == pr[p] by {
            let x = choose|x: int| 0 <= x < r@.len() && (#[trigger] r@[x]).0@ == p;
            lemma_map_of_at(r@, x);
            lemma_map_of_at(pats@, srcs[x]);
        }
        assert(map_of(r@) =~= pr);
    }
    r
}

/// The map after adding pattern `p` with kind word `k`: a pattern seen
/// before keeps the greater of its two kind words.
pub open spec fn merged(m: Map<Seq<u8>, u32>, p: Seq<u8>, k: u32) -> Map<Seq<u8>, u32> {
    if m.contains_key(p) && m[p] >= k {
        m
    } else {
        m.insert(p, k)
    }
}

/// Patterns that would match almost any URL.
pub open spec fn trivial_pattern(p: Seq<u8>) -> bool {
    ||| p.len() == 0
    ||| p == seq![47u8]
    ||| p == seq![46u8]
    ||| p == seq![46u8, 47]
    ||| p == seq![47u8, 47]
}

pub fn is_trivial_pattern(p: &[u8]) -> (r: bool)
    ensures
        r == trivial_pattern(p@),
{
    let n = p.len();
    if n == 0 {
        return true;
    }
    if n == 1 {
        assert(p@ == seq![47u8] <==> p@ =~= seq![47u8]);
        assert(p@ == seq![46u8] <==> p@ =~= seq![46u8]);
        return p[0] == 47 || p[0] == 46;
    }
    if n == 2 {
        assert(p@ == seq![46u8, 47] <==> p@ =~= seq![46u8, 47]);
        assert(p@ == seq![47u8, 47] <==> p@ =~= seq![47u8, 47]);
        return p[1] == 47 && (p[0] == 46 || p[0] == 47);
    }
    false
}

/// The map of a list grows by one entry when a new pattern is pushed.
proof fn lemma_map_of_push(v: Seq<(Vec<u8>, u32)>, e: (Vec<u8>, u32))
    requires
        distinct_patterns(v),
        !map_of(v).contains_key(e.0@),
        e.0@.len() > 0,
    ensures
        distinct_patterns(v.push(e)),
        map_of(v.push(e)) == map_of(v).insert(e.0@, e.1),
{
    let w = v.push(e);
    assert forall|i: int, j: int| 0 <= i < j < w.len() implies (#[trigger] w[i]).0@ != (
    #[trigger] w[j]).0@ by {
        if j == v.len() {
            assert(w[i] == v[i]);
            if w[i].0@ == e.0@ {
                assert(map_of(v).contains_key(e.0@));
            }
        } else {
            assert(w[i] == v[i] && w[j] == v[j]);
        }
    }
    assert forall|i: int| 0 <= i < w.len() implies (#[trigger] w[i]).0@.len() > 0 by {
        if i < v.len() {
            assert(w[i] == v[i]);
        }
    }
    let target = map_of(v).insert(e.0@, e.1);
    assert forall|k: Seq<u8>| #[trigger] map_of(w).contains_key(k) == target.contains_key(k) by {
        if map_of(w).contains_key(k) {
            let i = choose|i: int| 0 <= i < w.len() && (#[trigger] w[i]).0@ == k;
            if i < v.len() {
                assert(w[i] == v[i]);
                lemma_map_of_at(v, i);
            }
        }
        if map_of(v).contains_key(k) {
            let i = choose|i: int| 0 <= i < v.len() && (#[trigger] v[i]).0@ == k;
            assert(w[i] == v[i]);
            lemma_map_of_at(w, i);
        }
        if k == e.0@ {
            lemma_map_of_at(w, v.len() as int);
        }
    }
    assert forall|k: Seq<u8>| map_of(w).contains_key(k) implies #[trigger] map_of(w)[k] == target[k] by {
        let i = choose|i: int| 0 <= i < w.len() && (#[trigger] w[i]).0@ == k;
        lemma_map_of_at(w, i);
        if i < v.len() {
            assert(w[i] == v[i]);
            lemma_map_of_at(v, i);
        }
    }
    assert(map_of(w) =~= target);
}

/// Replacing the value of pattern `i` replaces it in the map.
proof fn lemma_map_of_update(v: Seq<(Vec<u8>, u32)>, i: int, e: (Vec<u8>, u32))
    requires
        distinct_patterns(v),
        0 <= i < v.len(),
        e.0@ == v[i].0@,
    ensures
        distinct_patterns(v.update(i, e)),
        map_of(v.update(i, e)) == map_of(v).insert(e.0@, e.1),
{
    let w = v.update(i, e);
    assert forall|a: int, b: int| 0 <= a < b < w.len() implies (#[trigger] w[a]).0@ != (
    #[trigger] w[b]).0@ by {
        assert(v[a].0@ != v[b].0@);
    }
    assert forall|a: int| 0 <= a < w.len() implies (#[trigger] w[a]).0@.len() > 0 by {
        assert(v[a].0@.len() > 0);
    }
    let target = map_of(v).insert(e.0@, e.1);
    assert forall|k: Seq<u8>| #[trigger] map_of(w).contains_key(k) == target.contains_key(k) by {
        if map_of(w).contains_key(k) {
            let a = choose|a: int| 0 <= a < w.len() && (#[trigger] w[a]).0@ == k;
            lemma_map_of_at(v, a);
        }
        if map_of(v).contains_key(k) {
            let a = choose|a: int| 0 <= a < v.len() && (#[trigger] v[a]).0@ == k;
            lemma_map_of_at(w, a);
        }
        if k == e.0@ {
            lemma_map_of_at(w, i);
        }
    }
    assert forall|k: Seq<u8>| map_of(w).contains_key(k) implies #[trigger] map_of(w)[k] == target[k] by {
        let a = choose|a: int| 0 <= a < w.len() && (#[trigger] w[a]).0@ == k;
        lemma_map_of_at(w, a);
        lemma_map_of_at(v, a);
    }
    assert(map_of(w) =~= target);
}

/// The patterns gathered from Adblock rules, each with its kind word, and the
/// hosts whose subdomains are blocked as a whole.
pub struct PatternSet {
    patterns: Vec<(Vec<u8>, u32)>,
    blacklist: Vec<Vec<u8>>,
}

impl PatternSet {
    pub closed spec fn wf(&self) -> bool {
        distinct_patterns(self.patterns@)
    }

    /// Each pattern with its kind word.
    pub closed spec fn pattern_map(&self) -> Map<Seq<u8>, u32> {
        map_of(self.patterns@)
    }

    /// The hosts whose subdomain rules are skipped.
    pub closed spec fn blocked_subdomains(&self) -> Set<Seq<u8>> {
        Set::new(|h: Seq<u8>| exists|i: int| 0 <= i < self.blacklist@.len() && (#[trigger] self.blacklist@[i])@ == h)
    }

    pub fn new() -> (r: PatternSet)
        ensures
            r.wf(),
            r.pattern_map() == Map::<Seq<u8>, u32>::empty(),
            r.blocked_subdomains() == Set::<Seq<u8>>::empty(),
    {
        let r = PatternSet { patterns: Vec::new(), blacklist: Vec::new() };
        assert(r.pattern_map() =~= Map::<Seq<u8>, u32>::empty());
        assert(r.blocked_subdomains() =~= Set::<Seq<u8>>::empty());
        r
    }

    /// The patterns with their kind words, in insertion order.
    pub closed spec fn pattern_pairs(&self) -> Seq<(Seq<u8>, u32)> {
        pair_seqs(self.patterns@)
    }

    /// How many patterns there are (one entry per distinct pattern).
    pub closed spec fn pattern_count(&self) -> nat {
        self.patterns@.len()
    }

    /// How many patterns there are.
    pub fn len(&self) -> (r: usize)
        ensures
            r == self.pattern_count(),
    {
        self.patterns.len()
    }

    /// Adds a pattern; a pattern seen before keeps the greater kind word.
    /// The trivial patterns `""`, `"/"`, `"."`, `"./"` and `"//"` match
    /// almost everything and are never kept.
    pub fn add_pattern(&mut self, kind: PatternType, pat: Vec<u8>)
        requires
            old(self).wf(),
        ensures
            final(self).wf(),
            final(self).blocked_subdomains() == old(self).blocked_subdomains(),
            trivial_pattern(pat@) ==> final(self).pattern_map() == old(self).pattern_map(),
            !trivial_pattern(pat@) ==> final(self).pattern_map() == merged(old(self).pattern_map(), pat@, kind.0),
            forall|p: Seq<u8>| #[trigger] final(self).pattern_map().contains_key(p) ==> !trivial_pattern(p)
                || old(self).pattern_map().contains_key(p),
    {
        if is_trivial_pattern(pat.as_slice()) {
            return;
        }
        let mut i: usize = 0;
        while i < self.patterns.len()
            invariant
                i <= self.patterns@.len(),
                self.patterns@ == old(self).patterns@,
                self.blacklist@ == old(self).blacklist@,
                !trivial_pattern(pat@),
                distinct_patterns(self.patterns@),
                forall|j: int| 0 <= j < i ==> (#[trigger] self.patterns@[j]).0@ != pat@,
            decreases self.patterns@.len() - i,
        {
            if bytes_eq(self.patterns[i].0.as_slice(), pat.as_slice()) {
                let old_k = self.patterns[i].1;
                proof {
                    lemma_map_of_at(self.patterns@, i as int);
                }
                if old_k < kind.0 {
                    let ghost before = self.patterns@;
                    self.patterns.set(i, (pat, kind.0));
                    proof {
                        lemma_map_of_update(before, i as int, (pat, kind.0));
                    }
                }
                return;
            }
            i += 1;
        }
        proof {
            if map_of(self.patterns@).contains_key(pat@) {
                let j = choose|j: int| 0 <= j < self.patterns@.len() && (#[trigger] self.patterns@[j]).0@ == pat@;
            }
            lemma_map_of_push(self.patterns@, (pat, kind.0));
        }
        self.patterns.push((pat, kind.0));
    }

    /// Whether rules for this subdomain are skipped: it is non-empty and some
    /// rule blocked it as a whole.
    pub fn is_blocked_subdomain(&self, sub: &[u8]) -> (r: bool)
        ensures
            r == (sub@.len() > 0 && self.blocked_subdomains().contains(sub@)),
    {
        if sub.len() == 0 {
            return false;
        }
        let mut i: usize = 0;
        while i < self.blacklist.len()
            invariant
                i <= self.blacklist@.len(),
                sub@.len() > 0,
                forall|j: int| 0 <= j < i ==> (#[trigger] self.blacklist@[j])@ != sub@,
            decreases self.blacklist@.len() - i,
        {
            if bytes_eq(self.blacklist[i].as_slice(), sub) {
                assert(self.blocked_subdomains().contains(sub@));
                return true;
            }
            i += 1;
        }
        false
    }

    fn block_subdomain(&mut self, host: Vec<u8>)
        ensures
            final(self).patterns == old(self).patterns,
            final(self).blocked_subdomains() == old(self).blocked_subdomains().insert(host@),
    {
        let ghost before = self.blacklist@;
        self.blacklist.push(host);
        proof {
            assert forall|h: Seq<u8>| #[trigger] self.blocked_subdomains().contains(h) == old(self).blocked_subdomains().insert(
                host@,
            ).contains(h) by {
                if old(self).blocked_subdomains().contains(h) {
                    let i = choose|i: int| 0 <= i < before.len() && (#[trigger] before[i])@ == h;
                    assert(self.blacklist@[i] == before[i]);
                }
                if self.blocked_subdomains().contains(h) {
                    let i = choose|i: int| 0 <= i < self.blacklist@.len() && (#[trigger] self.blacklist@[i])@ == h;
                    if i < before.len() {
                        assert(self.blacklist@[i] == before[i]);
                    }
                }
                if h == host@ {
                    assert(self.blacklist@[before.len() as int]@ == h);
                }
            }
            assert(self.blocked_subdomains() =~= old(self).blocked_subdomains().insert(host@));
        }
    }

    /// Reads one Adblock rule line and adds the pattern it gives, if any.
    /// Comments, cosmetic and allow-list rules, regular expressions, rules
    /// ending in `|`, rules with `*` or `^` left inside, non-ASCII rules and
    /// rules whose options cannot be compiled add nothing.
    pub fn add_rule_line(&mut self, list: &List, line: &[u8])
        requires
            old(self).wf(),
        ensures
            final(self).wf(),
            skipped_line(line@) ==> final(self).pattern_map() == old(self).pattern_map()
                && final(self).blocked_subdomains() == old(self).blocked_subdomains(),
            rule_body_of(line@) is None ==> final(self).pattern_map() == old(self).pattern_map()
                && final(self).blocked_subdomains() == old(self).blocked_subdomains(),
            rule_body_of(line@) matches Some(rb) ==> {
                let b = line@.subrange(rb.start as int, rb.end as int);
                starts_with(b, seq![58u8, 47, 47]) ==> if domain_part_with_dot(b.subrange(3, b.len() as int)) {
                    &&& final(self).blocked_subdomains() == old(self).blocked_subdomains().insert(
                        b.subrange(3, b.len() - 1),
                    )
                    &&& final(self).pattern_map() == added(
                        old(self).pattern_map(),
                        b.subrange(3, b.len() as int),
                        PatternType::of_kind_spec(PatternKind::AnyDomainPartBeforeETLD, true),
                    )
                } else {
                    &&& final(self).blocked_subdomains() == old(self).blocked_subdomains()
                    &&& final(self).pattern_map() == added(
                        old(self).pattern_map(),
                        b.subrange(1, b.len() as int),
                        PatternType::of_kind_spec(PatternKind::SlashedStart, rb.third_party),
                    )
                }
            },
            rule_body_of(line@) matches Some(rb) ==> {
                let b = line@.subrange(rb.start as int, rb.end as int);
                b[0] == 124 ==> final(self).blocked_subdomains() == old(self).blocked_subdomains() && exists|
                    sld: Option<usize>,
                | #[trigger] anchored_effect(
                    old(self).pattern_map(),
                    old(self).blocked_subdomains(),
                    final(self).pattern_map(),
                    anchored_content(b),
                    filter_of(anchored_content(b), sld),
                    rb.caret,
                    single_bar(b),
                    rb.third_party,
                )
            },
            rule_body_of(line@) matches Some(rb) ==> {
                let b = line@.subrange(rb.start as int, rb.end as int);
                !starts_with(b, seq![58u8, 47, 47]) && b[0] != 124 ==> final(self).blocked_subdomains()
                    == old(self).blocked_subdomains() && exists|sld: Option<usize>|
                    #[trigger] substring_effect(
                        old(self).pattern_map(),
                        old(self).blocked_subdomains(),
                        final(self).pattern_map(),
                        b,
                        filter_of(b, sld),
                        rb.third_party,
                    )
            },
            final(self).pattern_map() == old(self).pattern_map() || exists|p: Seq<u8>, k: u32|
                p.len() > 0 && final(self).pattern_map() == merged(old(self).pattern_map(), p, k),
            old(self).blocked_subdomains().subset_of(final(self).blocked_subdomains()),
    {
        let rb = match rule_body(line) {
            Some(rb) => rb,
            None => {
                return;
            },
        };
        let b = &line[rb.start..rb.end];
        let third_party = rb.third_party;
        let caret = rb.caret;
        let colon_slashes: [u8; 3] = [58, 47, 47];
        let bars: [u8; 2] = [124, 124];
        assert(colon_slashes@ =~= seq![58u8, 47, 47]);
        assert(b@ == line@.subrange(rb.start as int, rb.end as int));
        if starts_with_exec(b, colon_slashes.as_slice()) {
            let substr = &b[3..b.len()];
            if is_valid_domain_part_with_dot(substr) {
                let host = copy_range(substr, 0, substr.len() - 1);
                assert(host@ =~= b@.subrange(3, b@.len() - 1));
                self.block_subdomain(host);
                let pat = copy_range(substr, 0, substr.len());
                assert(pat@ =~= b@.subrange(3, b@.len() as int));
                self.add_pattern(PatternType::of_kind(PatternKind::AnyDomainPartBeforeETLD, true), pat);
            } else {
                let pat = copy_range(b, 1, b.len());
                self.add_pattern(PatternType::of_kind(PatternKind::SlashedStart, third_party), pat);
            }
        } else if b[0] == 124 {
            self.add_anchored(list, b, caret, third_party);
        } else {
            self.add_substring(list, b, third_party);
        }
    }

    /// Adds the pattern of a `|` or `||` rule body (see `anchored_effect`).
    fn add_anchored(&mut self, list: &List, b: &[u8], caret: bool, third_party: bool)
        requires
            old(self).wf(),
            b@.len() > 0,
        ensures
            final(self).wf(),
            final(self).blocked_subdomains() == old(self).blocked_subdomains(),
            exists|sld: Option<usize>|
                #[trigger] anchored_effect(
                    old(self).pattern_map(),
                    old(self).blocked_subdomains(),
                    final(self).pattern_map(),
                    anchored_content(b@),
                    filter_of(anchored_content(b@), sld),
                    caret,
                    single_bar(b@),
                    third_party,
                ),
            final(self).pattern_map() == old(self).pattern_map() || exists|p: Seq<u8>, k: u32|
                p.len() > 0 && final(self).pattern_map() == merged(old(self).pattern_map(), p, k),
    {
        let bars: [u8; 2] = [124, 124];
        assert(bars@ =~= seq![124u8, 124]);
        let anchored_start = !starts_with_exec(b, bars.as_slice());
        let content = if anchored_start {
            &b[1..b.len()]
        } else {
            &b[2..b.len()]
        };
        assert(content@ == (if anchored_start {
            b@.subrange(1, b@.len() as int)
        } else {
            b@.subrange(2, b@.len() as int)
        }));
        assert(anchored_start == single_bar(b@));
        assert(content@ == anchored_content(b@));
        let fo = prepare_adblock_filter(list, content);
        let ghost sld0 = choose|sld: Option<usize>| fo == filter_of(content@, sld);
        assert(fo == filter_of(content@, sld0));
        let ghost m0 = old(self).pattern_map();
        let ghost bl0 = old(self).blocked_subdomains();
        if let Some(f) = fo {
            if self.is_blocked_subdomain(&content[f.sub_without_www.0..f.sub_without_www.1]) {
                assert(anchored_effect(m0, bl0, self.pattern_map(), anchored_content(b@), filter_of(anchored_content(b@), sld0), caret, single_bar(b@), third_party));
                return;
            }
            let ghost ap = anchored_pattern(content@, f, caret, anchored_start, third_party);
            let mut suffix = copy_range(content, f.suffix.0, f.suffix.1);
            if caret && (suffix.len() == 0 || suffix[suffix.len() - 1] != 47) {
                suffix.push(47);
            }
            if anchored_start {
                let mut pat: Vec<u8> = Vec::new();
                pat.push(47);
                pat.push(47);
                push_range(&mut pat, content, f.domain.0, f.domain.1);
                push_range(&mut pat, suffix.as_slice(), 0, suffix.len());
                assert(suffix@.subrange(0, suffix@.len() as int) =~= suffix@);
                assert(pat@ =~= ap.0);
                self.add_pattern(PatternType::of_kind(PatternKind::SlashedStart, third_party), pat);
            } else {
                if suffix.len() == 0 {
                    suffix.push(47);
                    assert(suffix@ =~= seq![47u8]);
                }
                match f.etld_plus_2_without_www {
                    Some((a, e)) => {
                        let mut pat: Vec<u8> = Vec::new();
                        pat.push(46);
                        push_range(&mut pat, content, a, e);
                        push_range(&mut pat, suffix.as_slice(), 0, suffix.len());
                        assert(suffix@.subrange(0, suffix@.len() as int) =~= suffix@);
                        assert(pat@ =~= ap.0);
                        self.add_pattern(
                            PatternType::of_kind(PatternKind::DomainEndWithDotPrefix, third_party),
                            pat,
                        );
                    },
                    None => {
                        let mut pat: Vec<u8> = Vec::new();
                        push_range(&mut pat, content, f.domain.0, f.domain.1);
                        push_range(&mut pat, suffix.as_slice(), 0, suffix.len());
                        assert(suffix@.subrange(0, suffix@.len() as int) =~= suffix@);
                        assert(pat@ =~= ap.0);
                        self.add_pattern(PatternType::of_kind(PatternKind::DomainEnd, third_party), pat);
                    },
                }
            }
        }
        assert(anchored_effect(m0, bl0, self.pattern_map(), anchored_content(b@), filter_of(anchored_content(b@), sld0), caret, single_bar(b@), third_party));
    }

    /// Adds a plain rule body as a substring pattern (see `substring_effect`).
    fn add_substring(&mut self, list: &List, b: &[u8], third_party: bool)
        requires
            old(self).wf(),
        ensures
            final(self).wf(),
            final(self).blocked_subdomains() == old(self).blocked_subdomains(),
            exists|sld: Option<usize>|
                #[trigger] substring_effect(
                    old(self).pattern_map(),
                    old(self).blocked_subdomains(),
                    final(self).pattern_map(),
                    b@,
                    filter_of(b@, sld),
                    third_party,
                ),
            final(self).pattern_map() == old(self).pattern_map() || exists|p: Seq<u8>, k: u32|
                p.len() > 0 && final(self).pattern_map() == merged(old(self).pattern_map(), p, k),
    {
        let fo = prepare_adblock_filter(list, b);
        let ghost sld0 = choose|sld: Option<usize>| fo == filter_of(b@, sld);
        assert(fo == filter_of(b@, sld0));
        let skip = match fo {
            Some(f) => self.is_blocked_subdomain(&b[f.sub_without_www.0..f.sub_without_www.1]),
            None => false,
        };
        let ghost m0 = self.pattern_map();
        let ghost bl0 = self.blocked_subdomains();
        if !skip {
            let pat = copy_range(b, 0, b.len());
            assert(pat@ =~= b@);
            self.add_pattern(PatternType::of_kind(PatternKind::Substring, third_party), pat);
        }
        assert(substring_effect(m0, bl0, self.pattern_map(), b@, filter_of(b@, sld0), third_party));
    }

}

/// The pattern and kind word of a `|` (`start_anchor`) or `||` rule body
/// `content` once split into `f`: `//domain/suffix` for `|`; for `||`,
/// `.<eTLD+2>/suffix`, or `domain/suffix` without a subdomain. A stripped
/// `^` ends the suffix with `/`; a `||` suffix is at least `/`.
pub open spec fn anchored_pattern(content: Seq<u8>, f: AdblockFilter, caret: bool, start_anchor: bool, tp: bool) -> (
    Seq<u8>,
    u32,
) {
    let s0 = content.subrange(f.suffix.0 as int, f.suffix.1 as int);
    let s1 = if caret && (s0.len() == 0 || s0.last() != 47) {
        s0.push(47)
    } else {
        s0
    };
    let domain = content.subrange(f.domain.0 as int, f.domain.1 as int);
    if start_anchor {
        (seq![47u8, 47] + domain + s1, encode_tag(PatternKind::SlashedStart, tp))
    } else {
        let s2 = if s1.len() == 0 {
            seq![47u8]
        } else {
            s1
        };
        match f.etld_plus_2_without_www {
            Some((a, e)) => (seq![46u8] + content.subrange(a as int, e as int) + s2, encode_tag(
                PatternKind::DomainEndWithDotPrefix,
                tp,
            )),
            None => (domain + s2, encode_tag(PatternKind::DomainEnd, tp)),
        }
    }
}

/// A rule body anchored with one `|` (at the start of the URL) rather than `||`.
pub open spec fn single_bar(b: Seq<u8>) -> bool {
    !starts_with(b, seq![124u8, 124])
}

/// The body of a `|` rule after its `|`, of a `||` rule after its `||`.
pub open spec fn anchored_content(b: Seq<u8>) -> Seq<u8> {
    if starts_with(b, seq![124u8, 124]) {
        b.subrange(2, b.len() as int)
    } else {
        b.subrange(1, b.len() as int)
    }
}

/// The subdomain of a split rule is one whose rules are skipped.
pub open spec fn skipped_subdomain(content: Seq<u8>, f: AdblockFilter, blocked: Set<Seq<u8>>) -> bool {
    let sub = content.subrange(f.sub_without_www.0 as int, f.sub_without_www.1 as int);
    sub.len() > 0 && blocked.contains(sub)
}

/// How a `|` or `||` rule body `content` split into `f` changes the map:
/// not at all when it does not split or its subdomain is skipped, else by
/// adding its anchored pattern.
pub open spec fn anchored_effect(
    old_map: Map<Seq<u8>, u32>,
    blocked: Set<Seq<u8>>,
    new_map: Map<Seq<u8>, u32>,
    content: Seq<u8>,
    f: Option<AdblockFilter>,
    caret: bool,
    anch: bool,
    tp: bool,
) -> bool {
    match f {
        None => new_map == old_map,
        Some(f) => if skipped_subdomain(content, f, blocked) {
            new_map == old_map
        } else {
            new_map == added(
                old_map,
                anchored_pattern(content, f, caret, anch, tp).0,
                anchored_pattern(content, f, caret, anch, tp).1,
            )
        },
    }
}

/// How a plain rule body `b` changes the map: not at all when it splits
/// into a skipped subdomain, else by adding `b` as a substring pattern.
pub open spec fn substring_effect(
    old_map: Map<Seq<u8>, u32>,
    blocked: Set<Seq<u8>>,
    new_map: Map<Seq<u8>, u32>,
    b: Seq<u8>,
    f: Option<AdblockFilter>,
    tp: bool,
) -> bool {
    if f matches Some(f) && skipped_subdomain(b, f, blocked) {
        new_map == old_map
    } else {
        new_map == added(old_map, b, encode_tag(PatternKind::Substring, tp))
    }
}

/// The map after `add_pattern(p, k)`.
pub open spec fn added(m: Map<Seq<u8>, u32>, p: Seq<u8>, k: u32) -> Map<Seq<u8>, u32> {
    if trivial_pattern(p) {
        m
    } else {
        merged(m, p, k)
    }
}

/// Where a rule's body lies in its line, and what its options said.
#[derive(Clone, Copy, Debug, PartialEq, Eq, Structural)]
pub struct RuleBody {
    pub start: usize,
    pub end: usize,
    pub third_party: bool,
    /// A `^` was stripped from the end.
    pub caret: bool,
}

/// Index just past the last `/` or `$` of `t[0..k]`, or 0 when there is none.
pub open spec fn after_last_slash_or_dollar(t: Seq<u8>, k: int) -> int
    decreases k,
{
    if k <= 0 {
        0
    } else if t[k - 1] == 47 || t[k - 1] == 36 {
        k
    } else {
        after_last_slash_or_dollar(t, k - 1)
    }
}

/// `t[0..end]` without its trailing `^` and `*`, and whether a `^` was among them.
pub open spec fn strip_tail(t: Seq<u8>, end: int, caret: bool) -> (int, bool)
    decreases end,
{
    if end > 0 && (t[end - 1] == 94 || t[end - 1] == 42) {
        strip_tail(t, end - 1, caret || t[end - 1] == 94)
    } else {
        (end, caret)
    }
}

/// No `*` or `^` left, and only ASCII.
pub open spec fn clean_body(b: Seq<u8>) -> bool {
    forall|i: int| 0 <= i < b.len() ==> #[trigger] b[i] != 42 && b[i] != 94 && b[i] < 128
}

/// The body of a rule line: the trimmed line without its `$` options (which
/// must be usable, see `script_rule`) and without trailing `^` and `*`.
/// None for skipped lines, regular expressions (`/.../`), rules ending in
/// `|`, empty bodies, and bodies with `*`, `^` or non-ASCII bytes left.
pub open spec fn rule_body_of(line: Seq<u8>) -> Option<RuleBody> {
    let lo = crate::bytes::trim_lo(line, 0, line.len() as int);
    let hi = crate::bytes::trim_hi(line, lo, line.len() as int);
    let t = line.subrange(lo, hi);
    let q = after_last_slash_or_dollar(t, t.len() as int);
    let opts: Option<(int, bool)> = if q > 0 && t[q - 1] == 36 {
        if q - 1 < 1 {
            None
        } else {
            match script_rule(t.subrange(q, t.len() as int)) {
                None => None,
                Some(tp) => Some((q - 1, tp)),
            }
        }
    } else {
        Some((t.len() as int, false))
    };
    if skipped_line(line) {
        None
    } else {
        match opts {
            None => None,
            Some((end, tp)) => if end > 0 && ((t[end - 1] == 47 && t[0] == 47) || t[end - 1] == 124) {
                None
            } else {
                let (e2, caret) = strip_tail(t, end, false);
                if e2 <= 0 || !clean_body(t.subrange(0, e2)) {
                    None
                } else {
                    Some(RuleBody { start: lo as usize, end: (lo + e2) as usize, third_party: tp, caret })
                }
            },
        }
    }
}

fn is_clean_body(b: &[u8]) -> (r: bool)
    ensures
        r == clean_body(b@),
{
    let mut k: usize = 0;
    while k < b.len()
        invariant
            k <= b@.len(),
            forall|i: int| 0 <= i < k ==> #[trigger] b@[i] != 42 && b@[i] != 94 && b@[i] < 128,
        decreases b@.len() - k,
    {
        if b[k] == 42 || b[k] == 94 || b[k] >= 128 {
            return false;
        }
        k += 1;
    }
    true
}

/// Finds the body of a rule line (see `rule_body_of`).
pub fn rule_body(line: &[u8]) -> (r: Option<RuleBody>)
    ensures
        r == rule_body_of(line@),
        r matches Some(rb) ==> rb.start < rb.end <= line@.len(),
{
    let (lo, hi) = trim_range(line);
    let t = &line[lo..hi];
    assert(t@ == crate::bytes::trim(line@));
    let at_at: [u8; 2] = [64, 64];
    let hash2: [u8; 2] = [35, 35];
    let hash_at: [u8; 3] = [35, 64, 35];
    let hash_q: [u8; 3] = [35, 63, 35];
    proof {
        assert(at_at@ =~= seq![64u8, 64]);
        assert(hash2@ =~= seq![35u8, 35]);
        assert(hash_at@ =~= seq![35u8, 64, 35]);
        assert(hash_q@ =~= seq![35u8, 63, 35]);
    }
    if t.len() == 0 || t[0] == 33 || t[0] == 91 || starts_with_exec(t, at_at.as_slice())
        || find_bytes(t, hash2.as_slice()).is_some() || find_bytes(t, hash_at.as_slice()).is_some()
        || find_bytes(t, hash_q.as_slice()).is_some() {
        return None;
    }
    assert(!skipped_line(line@));
    let mut third_party = false;
    let mut end = t.len();
    let mut q = t.len();
    while q > 0 && t[q - 1] != 47 && t[q - 1] != 36
        invariant
            q <= t@.len(),
            after_last_slash_or_dollar(t@, q as int) == after_last_slash_or_dollar(t@, t@.len() as int),
        decreases q,
    {
        q -= 1;
    }
    if q > 0 && t[q - 1] == 36 {
        let pos = q - 1;
        if pos < 1 {
            return None;
        }
        match is_valid_script_rule(&t[pos + 1..t.len()]) {
            Some(tp) => {
                third_party = tp;
            },
            None => {
                return None;
            },
        }
        end = pos;
    }
    if end > 0 && ((t[end - 1] == 47 && t[0] == 47) || t[end - 1] == 124) {
        return None;
    }
    let ghost end0 = end;
    let mut caret = false;
    while end > 0 && (t[end - 1] == 94 || t[end - 1] == 42)
        invariant
            end <= end0 <= t@.len(),
            strip_tail(t@, end as int, caret) == strip_tail(t@, end0 as int, false),
        decreases end,
    {
        if t[end - 1] == 94 {
            caret = true;
        }
        end -= 1;
    }
    if end == 0 {
        return None;
    }
    assert(strip_tail(t@, end as int, caret) == (end as int, caret));
    if !is_clean_body(&t[0..end]) {
        return None;
    }
    assert(clean_body(t@.subrange(0, end as int)));
    Some(RuleBody { start: lo, end: lo + end, third_party, caret })
}

/// A line that is blank, a comment (`!`), a section header (`[`), an
/// allow-list rule (`@@`) or a cosmetic rule (`##`, `#@#`, `#?#`).
pub open spec fn skipped_line(line: Seq<u8>) -> bool {
    let t = trim(line);
    ||| t.len() == 0
    ||| t[0] == 33
    ||| t[0] == 91
    ||| starts_with(t, seq![64u8, 64])
    ||| exists|i: int| occurs(t, seq![35u8, 35], i)
    ||| exists|i: int| occurs(t, seq![35u8, 64, 35], i)
    ||| exists|i: int| occurs(t, seq![35u8, 63, 35], i)
}

/// Why a pattern set could not be compiled.
#[derive(Clone, Copy, Debug, PartialEq, Eq, Structural)]
pub enum CompileError {
    /// No rule gave a pattern.
    NoPatterns,
    /// The automaton could not be built (too many patterns).
    BuildFailed,
}

impl PatternSet {
    /// Builds the automaton of the patterns, drops every pattern that another
    /// one subsumes (see `pruned`; the subdomain of each pattern comes from
    /// the suffix list), and builds the automaton of what is left.
    pub fn compile(&self, list: &List) -> (r: Result<DoubleArrayAhoCorasick<u32>, CompileError>)
        requires
            self.wf(),
        ensures
            self.pattern_count() == 0 <==> r == Err::<DoubleArrayAhoCorasick<u32>, CompileError>(
                CompileError::NoPatterns,
            ),
            r matches Ok(d) ==> dac_standard(d) && exists|sub_of: spec_fn(Seq<u8>) -> Option<(usize, usize)>|
                dac_patterns(d) == pruned(self.pattern_map(), sub_of),
            r == Err::<DoubleArrayAhoCorasick<u32>, CompileError>(CompileError::BuildFailed) ==> !dac_fits(
                self.pattern_pairs(),
            ) || exists|kept: Seq<(Vec<u8>, u32)>, sub_of: spec_fn(Seq<u8>) -> Option<(usize, usize)>|
                #[trigger] map_of(kept) == #[trigger] pruned(self.pattern_map(), sub_of) && !dac_fits(pair_seqs(kept)),
    {
        if self.patterns.len() == 0 {
            return Err(CompileError::NoPatterns);
        }
        let d = match build_dac(&self.patterns) {
            Some(d) => d,
            None => {
                return Err(CompileError::BuildFailed);
            },
        };
        let mut subs: Vec<Option<(usize, usize)>> = Vec::new();
        let mut i: usize = 0;
        while i < self.patterns.len()
            invariant
                i <= self.patterns@.len(),
                subs@.len() == i,
            decreases self.patterns@.len() - i,
        {
            let p = self.patterns[i].0.as_slice();
            let sub = match prepare_adblock_filter(list, p) {
                Some(f) => Some(f.sub_without_www),
                None => None,
            };
            subs.push(sub);
            i += 1;
        }
        let kept = prune_overlaps_with(&self.patterns, &subs, &d);
        let ghost sub_of = |p: Seq<u8>| subs@[index_in(self.patterns@, p)];
        match build_dac(&kept) {
            Some(d2) => {
                assert(dac_patterns(d2) == pruned(self.pattern_map(), sub_of));
                Ok(d2)
            },
            None => {
                assert(map_of(kept@) == pruned(self.pattern_map(), sub_of) && !dac_fits(pair_seqs(kept@)));
                Err(CompileError::BuildFailed)
            },
        }
    }

    /// The patterns, for a plain-text listing.
    pub fn pattern_list(&self) -> (r: Vec<Vec<u8>>)
        requires
            self.wf(),
        ensures
            r@.len() == self.pattern_count(),
            forall|i: int| 0 <= i < r@.len() ==> self.pattern_map().contains_key(#[trigger] r@[i]@),
    {
        let mut r: Vec<Vec<u8>> = Vec::new();
        let mut i: usize = 0;
        while i < self.patterns.len()
            invariant
                i <= self.patterns@.len(),
                distinct_patterns(self.patterns@),
                r@.len() == i,
                forall|j: int| 0 <= j < i ==> (#[trigger] r@[j])@ == self.patterns@[j].0@,
            decreases self.patterns@.len() - i,
        {
            let p = self.patterns[i].0.as_slice();
            r.push(copy_range(p, 0, p.len()));
            i += 1;
        }
        proof {
            assert forall|i: int| 0 <= i < r@.len() implies self.pattern_map().contains_key(
                #[trigger] r@[i]@,
            ) by {
                lemma_map_of_at(self.patterns@, i);
            }
        }
        r
    }
}

} // verus!
