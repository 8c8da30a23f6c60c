//! Cross-validation of the searchers.
//!
//! The harness runs every searcher of the family, and the reference
//! searchers from outside the crate, on the same haystack and needle and
//! reports whether all verdicts are the same. A disagreement is never
//! settled by vote: it is reported as a violation. A needle that a searcher
//! rejects is not passed over either: the rejection ends the validation.
//!
//! The members of the family are proved to agree, so what the harness
//! learns at run time is whether the references confirm them.

use vstd::prelude::*;
use vstd::slice::{slice_subrange, slice_to_vec};
use vstd::string::StringSliceAdditionalSpecFns;
use crate::error::SearchError;
use crate::family::Searcher;
use crate::noise::{random_in_range, random_nanosecond};
use crate::oracle::{magiclen_find_first, magiclen_first_match, str_contains};
use crate::partition::ParallelConfig;
use crate::sum::MAX_NARROW_SUM_NEEDLE_LEN;
use crate::window::occurs;

verus! {

/// The shortest corpus that the suite can cut its fragments from.
pub const MIN_CORPUS_LEN: usize = 10006;

/// The number of needles in the suite.
pub const SUITE_LEN: usize = 24;

/// The number of needles of the suite that are exact fragments of the
/// corpus; they come first.
pub const EXACT_FRAGMENTS: usize = 9;

/// The place of the suite's one fixed needle that no corpus is expected to
/// hold. The needles after it, up to [`FIRST_DAMAGED`], are made-up
/// nanosecond counts.
pub const FIXED_NOISE: usize = 9;

/// The place of the first damaged fragment in the suite.
pub const FIRST_DAMAGED: usize = 14;

/// The place of the first random number in the suite; the numbers come
/// last.
pub const FIRST_NUMBER: usize = 20;

/// The bound under which the suite's random numbers are drawn.
pub const NUMBER_BOUND: usize = 1000;

/// The byte that replaces the damaged stretch of a fragment: the letter a.
pub const REPLACEMENT: u8 = 0x61;

/// The code of the digit zero.
pub const DIGIT_ZERO: u8 = 0x30;

/// All verdicts are the same.
pub open spec fn all_same(verdicts: Seq<bool>) -> bool {
    forall|i: int, j: int|
        0 <= i < verdicts.len() && 0 <= j < verdicts.len() ==> verdicts[i] == verdicts[j]
}

/// The references confirm the searchers on a haystack and a needle: the
/// outside byte searcher, asked where the needle is not empty, and every
/// verdict brought in from elsewhere say what the searchers say.
pub open spec fn references_confirm(
    haystack: Seq<u8>,
    needle: Seq<u8>,
    outside_verdicts: Seq<bool>,
) -> bool {
    &&& needle.len() > 0 ==> magiclen_first_match(needle, haystack).is_some() == occurs(
        haystack,
        needle,
    )
    &&& forall|i: int|
        0 <= i < outside_verdicts.len() ==> outside_verdicts[i] == occurs(haystack, needle)
}

/// What a cross-validation reports: nothing where the references confirm
/// the searchers, a violation where they do not.
pub open spec fn confirmation(confirmed: bool) -> Result<(), SearchError> {
    if confirmed {
        Ok(())
    } else {
        Err(SearchError::InvariantViolation)
    }
}

/// Some searcher of the family rejects the needle: the needle needs a scan
/// and is longer than the narrowest accumulator of the family takes.
pub open spec fn family_rejects(haystack: Seq<u8>, needle: Seq<u8>) -> bool {
    0 < needle.len() < haystack.len() && needle.len() > MAX_NARROW_SUM_NEEDLE_LEN
}

/// What a cross-validation of one haystack and one needle reports: the
/// rejection where a searcher rejects the needle, and otherwise whether the
/// references confirm the searchers.
pub open spec fn cross_validation(
    haystack: Seq<u8>,
    needle: Seq<u8>,
    outside_verdicts: Seq<bool>,
) -> Result<(), SearchError> {
    if family_rejects(haystack, needle) {
        Err(SearchError::InvalidNeedle)
    } else {
        confirmation(references_confirm(haystack, needle, outside_verdicts))
    }
}

/// `text` with the `length` bytes from `index` on replaced by one
/// [`REPLACEMENT`] byte.
pub open spec fn damaged(text: Seq<u8>, index: int, length: int) -> Seq<u8> {
    text.subrange(0, index).push(REPLACEMENT) + text.subrange(index + length, text.len() as int)
}

/// The decimal digits of `n`, as character codes.
pub open spec fn decimal_digits(n: nat) -> Seq<u8>
    decreases n,
{
    if n < 10 {
        seq![(DIGIT_ZERO + n) as u8]
    } else {
        decimal_digits(n / 10).push((DIGIT_ZERO + n % 10) as u8)
    }
}

/// Where the `k`-th exact fragment of the suite starts in the corpus.
pub open spec fn fragment_start(k: int) -> int {
    if k == 4 {
        1
    } else if k == 5 {
        5
    } else if k == 6 {
        100
    } else if k == 7 {
        1000
    } else if k == 8 {
        10000
    } else {
        0
    }
}

/// Where the `k`-th exact fragment of the suite ends in a corpus of length
/// `corpus_len`.
pub open spec fn fragment_end(k: int, corpus_len: int) -> int {
    if k == 0 {
        1
    } else if k == 1 {
        10
    } else if k == 2 {
        100
    } else if k == 3 {
        1000
    } else if k == 4 {
        5
    } else if k == 5 {
        10
    } else if k == 6 {
        1000
    } else if k == 7 {
        10000
    } else {
        corpus_len
    }
}

/// The `k`-th exact fragment of the suite.
pub open spec fn exact_fragment(text: Seq<u8>, k: int) -> Seq<u8> {
    text.subrange(fragment_start(k), fragment_end(k, text.len() as int))
}

/// The exact fragment that the `k`-th needle of the suite is a damaged
/// copy of, for `k` from [`FIRST_DAMAGED`] up to [`FIRST_NUMBER`].
pub open spec fn damage_source(k: int) -> int {
    if k == 14 {
        1
    } else if k == 15 {
        2
    } else if k == 16 {
        3
    } else if k == 17 {
        6
    } else if k == 18 {
        7
    } else {
        8
    }
}

/// The suite's fixed noise: the letters `asjkdjkasndjkasd`.
pub open spec fn fixed_noise() -> Seq<u8> {
    seq![
        0x61u8, 0x73u8, 0x6au8, 0x6bu8, 0x64u8, 0x6au8, 0x6bu8, 0x61u8, 0x73u8, 0x6eu8, 0x64u8,
        0x6au8, 0x6bu8, 0x61u8, 0x73u8, 0x64u8,
    ]
}

/// What is known of the `k`-th needle of the suite over a corpus. The
/// made-up nanosecond counts are not described: they are whatever came
/// back.
pub open spec fn is_suite_needle(text: Seq<u8>, k: int, needle: Seq<u8>) -> bool {
    if 0 <= k < EXACT_FRAGMENTS {
        needle == exact_fragment(text, k)
    } else if k == FIXED_NOISE {
        needle == fixed_noise()
    } else if FIRST_DAMAGED <= k < FIRST_NUMBER {
        let source = exact_fragment(text, damage_source(k));
        exists|index: int, length: int|
            0 <= index < source.len() - 5 && 1 <= length < 4 && needle == #[trigger] damaged(
                source,
                index,
                length,
            )
    } else if FIRST_NUMBER <= k < SUITE_LEN {
        exists|n: nat| n < NUMBER_BOUND && needle == #[trigger] decimal_digits(n)
    } else {
        true
    }
}

/// Reports whether all verdicts are the same, by comparing each with the
/// one after it.
pub fn unanimous(verdicts: &[bool]) -> (same: bool)
    ensures
        same == all_same(verdicts@),
{
    let len = verdicts.len();
    let mut i: usize = 1;
    while i < len
        invariant
            1 <= i,
            len == verdicts@.len(),
            forall|k: int| 0 <= k < i && k < len ==> #[trigger] verdicts@[k] == verdicts@[0],
        decreases len - i,
    {
        if verdicts[i - 1] != verdicts[i] {
            return false;
        }
        i += 1;
    }
    true
}

/// Runs every searcher and every reference on one haystack and one needle
/// and compares the verdicts. One verdict that differs from another is a
/// [`SearchError::InvariantViolation`].
///
/// A searcher that rejects the needle ends the validation: its rejection is
/// handed back and nothing is compared. `outside_verdicts` are verdicts on
/// the same haystack and needle that the caller obtained elsewhere; they
/// are compared along with the rest.
pub fn cross_validate(
    haystack: &[u8],
    needle: &[u8],
    config: ParallelConfig,
    outside_verdicts: &[bool],
) -> (result: Result<(), SearchError>)
    ensures
        result == cross_validation(haystack@, needle@, outside_verdicts@),
{
    let family = Searcher::family(config);
    let mut verdicts: Vec<bool> = Vec::new();
    let mut m: usize = 0;
    while m < family.len()
        invariant
            m <= family@.len(),
            family@.len() == 7,
            family@[0] == Searcher::Naive,
            family@[3] == Searcher::NarrowRollingSum,
            m > 0 ==> verdicts@.len() > 0,
            m > 3 ==> !family_rejects(haystack@, needle@),
            forall|k: int| 0 <= k < verdicts@.len() ==> verdicts@[k] == occurs(haystack@, needle@),
        decreases family@.len() - m,
    {
        match family[m].search(haystack, needle) {
            Ok(verdict) => {
                verdicts.push(verdict);
            },
            Err(rejection) => {
                return Err(rejection);
            },
        }
        m += 1;
    }
    let ghost truth = occurs(haystack@, needle@);
    let ghost asked = verdicts@.len() as int;
    if needle.len() > 0 {
        verdicts.push(magiclen_find_first(needle, haystack).is_some());
    }
    let ghost inside = verdicts@.len() as int;
    let ghost reference = magiclen_first_match(needle@, haystack@).is_some();
    let mut v: usize = 0;
    while v < outside_verdicts.len()
        invariant
            v <= outside_verdicts@.len(),
            0 < asked <= inside,
            inside == asked + (if needle@.len() > 0 { 1int } else { 0int }),
            verdicts@.len() == inside + v,
            forall|k: int| 0 <= k < asked ==> verdicts@[k] == truth,
            needle@.len() > 0 ==> verdicts@[asked] == reference,
            forall|k: int| 0 <= k < v ==> verdicts@[inside + k] == outside_verdicts@[k],
        decreases outside_verdicts@.len() - v,
    {
        verdicts.push(outside_verdicts[v]);
        v += 1;
    }
    let same = unanimous(verdicts.as_slice());
    proof {
        if references_confirm(haystack@, needle@, outside_verdicts@) {
            assert forall|i: int| 0 <= i < verdicts@.len() implies verdicts@[i] == truth by {
                if i >= inside {
                    assert(verdicts@[inside + (i - inside)] == outside_verdicts@[i - inside]);
                }
            }
        }
        if all_same(verdicts@) {
            if needle@.len() > 0 {
                assert(verdicts@[asked] == verdicts@[0]);
            }
            assert forall|i: int| 0 <= i < outside_verdicts@.len() implies outside_verdicts@[i]
                == truth by {
                assert(verdicts@[inside + i] == verdicts@[0]);
            }
        }
    }
    if same {
        Ok(())
    } else {
        Err(SearchError::InvariantViolation)
    }
}

/// Cross-validates on text: everything that [`cross_validate`] compares on
/// the bytes of the two strings, with the verdict of the standard library's
/// substring test on the strings themselves as one more outside verdict.
pub fn cross_validate_text(
    haystack: &str,
    needle: &str,
    config: ParallelConfig,
    outside_verdicts: &[bool],
) -> (result: Result<(), SearchError>)
    ensures
        result == cross_validation(
            haystack.spec_bytes(),
            needle.spec_bytes(),
            outside_verdicts@.push(occurs(haystack@, needle@)),
        ),
{
    let mut verdicts: Vec<bool> = Vec::new();
    let mut v: usize = 0;
    while v < outside_verdicts.len()
        invariant
            v <= outside_verdicts@.len(),
            verdicts@ == outside_verdicts@.take(v as int),
        decreases outside_verdicts@.len() - v,
    {
        verdicts.push(outside_verdicts[v]);
        proof {
            assert(outside_verdicts@.take(v as int).push(outside_verdicts@[v as int])
                =~= outside_verdicts@.take(v + 1));
        }
        v += 1;
    }
    verdicts.push(str_contains(haystack, needle));
    proof {
        assert(outside_verdicts@.take(outside_verdicts@.len() as int) =~= outside_verdicts@);
    }
    cross_validate(haystack.as_bytes(), needle.as_bytes(), config, verdicts.as_slice())
}

/// Damages a text: the `length` bytes from `index` on give way to one
/// [`REPLACEMENT`] byte.
pub fn mess_up(text: &[u8], index: usize, length: usize) -> (result: Vec<u8>)
    requires
        index + length <= text@.len(),
    ensures
        result@ == damaged(text@, index as int, length as int),
{
    let mut result: Vec<u8> = Vec::new();
    let mut i: usize = 0;
    while i < index
        invariant
            i <= index <= text.len(),
            result@ == text@.subrange(0, i as int),
        decreases index - i,
    {
        result.push(text[i]);
        proof {
            assert(text@.subrange(0, i as int).push(text@[i as int]) =~= text@.subrange(0, i + 1));
        }
        i += 1;
    }
    result.push(REPLACEMENT);
    let ghost head = result@;
    let len = text.len();
    let from = index + length;
    let mut j: usize = from;
    while j < len
        invariant
            from <= j <= len,
            len == text@.len(),
            result@ == head + text@.subrange(from as int, j as int),
        decreases len - j,
    {
        result.push(text[j]);
        proof {
            assert(text@.subrange(from as int, j as int).push(text@[j as int]) =~= text@.subrange(
                from as int,
                j + 1,
            ));
            assert((head + text@.subrange(from as int, j as int)).push(text@[j as int]) =~= head
                + text@.subrange(from as int, j + 1));
        }
        j += 1;
    }
    result
}

/// Damages a text at a place drawn at random: one to three bytes, starting
/// somewhere before the text's last five bytes.
pub fn random_mess_up(text: &[u8]) -> (result: Vec<u8>)
    requires
        text@.len() > 5,
    ensures
        exists|index: int, length: int|
            0 <= index < text@.len() - 5 && 1 <= length < 4 && result@ == #[trigger] damaged(
                text@,
                index,
                length,
            ),
{
    let length = random_in_range(1, 4);
    let index = random_in_range(0, text.len() - 5);
    let result = mess_up(text, index, length);
    proof {
        assert(result@ == damaged(text@, index as int, length as int));
    }
    result
}

/// Writes a number in decimal digits.
pub fn decimal_text(n: usize) -> (digits: Vec<u8>)
    ensures
        digits@ == decimal_digits(n as nat),
    decreases n,
{
    if n < 10 {
        let mut digits: Vec<u8> = Vec::new();
        digits.push(DIGIT_ZERO + n as u8);
        proof {
            assert(digits@ =~= seq![(DIGIT_ZERO + n) as u8]);
        }
        digits
    } else {
        let mut digits = decimal_text(n / 10);
        digits.push(DIGIT_ZERO + (n % 10) as u8);
        digits
    }
}

/// Copies the `k`-th exact fragment out of the corpus.
fn copy_fragment(text: &[u8], k: usize) -> (fragment: Vec<u8>)
    requires
        text@.len() >= MIN_CORPUS_LEN,
        k < EXACT_FRAGMENTS,
    ensures
        fragment@ == exact_fragment(text@, k as int),
        fragment@.len() == fragment_end(k as int, text@.len() as int) - fragment_start(k as int),
{
    let len = text.len();
    let start: usize = if k == 4 {
        1
    } else if k == 5 {
        5
    } else if k == 6 {
        100
    } else if k == 7 {
        1000
    } else if k == 8 {
        10000
    } else {
        0
    };
    let end: usize = if k == 0 {
        1
    } else if k == 1 {
        10
    } else if k == 2 {
        100
    } else if k == 3 {
        1000
    } else if k == 4 {
        5
    } else if k == 5 {
        10
    } else if k == 6 {
        1000
    } else if k == 7 {
        10000
    } else {
        len
    };
    slice_to_vec(slice_subrange(text, start, end))
}

/// Makes the `k`-th needle of the suite over a corpus.
///
/// The suite holds, in this order: nine exact fragments of the corpus; one
/// fixed string of noise; four made-up nanosecond counts; six fragments
/// damaged at a random place; and four random numbers under
/// [`NUMBER_BOUND`], in decimal digits.
pub fn suite_needle(text: &[u8], k: usize) -> (needle: Vec<u8>)
    requires
        text@.len() >= MIN_CORPUS_LEN,
        k < SUITE_LEN,
    ensures
        is_suite_needle(text@, k as int, needle@),
{
    if k < EXACT_FRAGMENTS {
        copy_fragment(text, k)
    } else if k == FIXED_NOISE {
        let needle = vec![
            0x61u8, 0x73u8, 0x6au8, 0x6bu8, 0x64u8, 0x6au8, 0x6bu8, 0x61u8, 0x73u8, 0x6eu8, 0x64u8,
            0x6au8, 0x6bu8, 0x61u8, 0x73u8, 0x64u8,
        ];
        proof {
            assert(needle@ =~= fixed_noise());
        }
        needle
    } else if k < FIRST_DAMAGED {
        let count = random_nanosecond();
        slice_to_vec(count.as_str().as_bytes())
    } else if k < FIRST_NUMBER {
        let source: usize = if k == 14 {
            1
        } else if k == 15 {
            2
        } else if k == 16 {
            3
        } else if k == 17 {
            6
        } else if k == 18 {
            7
        } else {
            8
        };
        let fragment = copy_fragment(text, source);
        let needle = random_mess_up(fragment.as_slice());
        proof {
            let (index, length) = choose|index: int, length: int|
                0 <= index < fragment@.len() - 5 && 1 <= length < 4 && needle@
                    == #[trigger] damaged(fragment@, index, length);
            assert(needle@ == damaged(exact_fragment(text@, damage_source(k as int)), index, length));
        }
        needle
    } else {
        let n = random_in_range(0, NUMBER_BOUND);
        let needle = decimal_text(n);
        proof {
            assert(needle@ == decimal_digits(n as nat));
        }
        needle
    }
}

/// One needle to cross-validate, with the verdicts on it that were obtained
/// outside the crate.
#[derive(Debug)]
pub struct Probe {
    pub needle: Vec<u8>,
    pub outside_verdicts: Vec<bool>,
}

/// What the cross-validation of a probe reports.
pub open spec fn probe_outcome(haystack: Seq<u8>, probe: Probe) -> Result<(), SearchError> {
    cross_validation(haystack, probe.needle@, probe.outside_verdicts@)
}

/// The `k`-th needle of the suite passes: some needle that the suite can
/// make at that place is cross-validated without a fault.
pub open spec fn confirmed_at(text: Seq<u8>, k: int) -> bool {
    exists|needle: Seq<u8>|
        #[trigger] is_suite_needle(text, k, needle) && cross_validation(
            text,
            needle,
            Seq::<bool>::empty(),
        ) is Ok
}

/// The `k`-th needle of the suite fails with `fault`: some needle that the
/// suite can make at that place is cross-validated to that fault.
pub open spec fn failed_at(text: Seq<u8>, k: int, fault: SearchError) -> bool {
    exists|needle: Seq<u8>|
        #[trigger] is_suite_needle(text, k, needle) && cross_validation(
            text,
            needle,
            Seq::<bool>::empty(),
        ) == Err::<(), SearchError>(fault)
}

/// Cross-validates every probe in turn against one haystack. The first
/// probe that does not pass ends the run with its fault: no probe is
/// skipped, and no later probe hides an earlier one.
pub fn validate_all(haystack: &[u8], probes: &[Probe], config: ParallelConfig) -> (result: Result<
    (),
    SearchError,
>)
    ensures
        result is Ok <==> forall|i: int|
            0 <= i < probes@.len() ==> probe_outcome(haystack@, #[trigger] probes@[i]) is Ok,
        result is Err ==> exists|i: int|
            0 <= i < probes@.len() && probe_outcome(haystack@, #[trigger] probes@[i]) == result
                && forall|j: int|
                0 <= j < i ==> probe_outcome(haystack@, #[trigger] probes@[j]) is Ok,
{
    let mut i: usize = 0;
    while i < probes.len()
        invariant
            i <= probes@.len(),
            forall|j: int| 0 <= j < i ==> probe_outcome(haystack@, #[trigger] probes@[j]) is Ok,
        decreases probes@.len() - i,
    {
        let outcome = cross_validate(
            haystack,
            probes[i].needle.as_slice(),
            config,
            probes[i].outside_verdicts.as_slice(),
        );
        if outcome.is_err() {
            proof {
                assert(probe_outcome(haystack@, probes@[i as int]) == outcome);
            }
            return outcome;
        }
        i += 1;
    }
    Ok(())
}

/// Cross-validates the whole suite over a corpus.
///
/// Every needle of the suite is made, in order, and the needles are then
/// cross-validated in that order with no outside verdicts. The first needle
/// that a searcher rejects, or on which the references do not confirm the
/// searchers, ends the run with that fault.
pub fn run_suite(text: &[u8], config: ParallelConfig) -> (result: Result<(), SearchError>)
    requires
        text@.len() >= MIN_CORPUS_LEN,
    ensures
        result is Ok ==> forall|k: int| 0 <= k < SUITE_LEN ==> #[trigger] confirmed_at(text@, k),
        result matches Err(fault) ==> exists|k: int|
            0 <= k < SUITE_LEN && #[trigger] failed_at(text@, k, fault) && forall|j: int|
                0 <= j < k ==> #[trigger] confirmed_at(text@, j),
{
    let mut probes: Vec<Probe> = Vec::new();
    let mut k: usize = 0;
    while k < SUITE_LEN
        invariant
            k <= SUITE_LEN,
            text@.len() >= MIN_CORPUS_LEN,
            probes@.len() == k,
            forall|j: int|
                0 <= j < k ==> {
                    &&& is_suite_needle(text@, j, (#[trigger] probes@[j]).needle@)
                    &&& probes@[j].outside_verdicts@ =~= Seq::<bool>::empty()
                },
        decreases SUITE_LEN - k,
    {
        let needle = suite_needle(text, k);
        probes.push(Probe { needle, outside_verdicts: Vec::new() });
        k += 1;
    }
    let result = validate_all(text, probes.as_slice(), config);
    proof {
        assert forall|j: int|
            0 <= j < SUITE_LEN && probe_outcome(text@, probes@[j]) is Ok implies #[trigger] confirmed_at(
            text@,
            j,
        ) by {
            assert(is_suite_needle(text@, j, probes@[j].needle@));
        }
        if result is Err {
            let at = choose|i: int|
                0 <= i < probes@.len() && probe_outcome(text@, #[trigger] probes@[i]) == result
                    && forall|j: int|
                    0 <= j < i ==> probe_outcome(text@, #[trigger] probes@[j]) is Ok;
            assert(is_suite_needle(text@, at, probes@[at].needle@));
            assert(failed_at(text@, at, result->Err_0));
        }
    }
    result
}

} // verus!
