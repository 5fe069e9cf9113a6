//! The two scans over the embedded digit expansion: the first prime window
//! and the first window whose digit-sum hits the password target.
//!
//! Both scans slide a ten-digit window over the fractional digits of the
//! embedded constant, one digit at a time, and stop at the first window that
//! satisfies their predicate; a scan that runs out of windows reports
//! `NotFound` instead of reading past the end.

use vstd::prelude::*;

verus! {

use crate::WINDOW_WIDTH;
use crate::model::{
    frac_digits,
    window_value,
    window_sum,
    can_read,
    lemma_window_value_fits,
    lemma_window_sum_fits,
};
use crate::scanner::{E, ScanError};

/// The decimal expansion of Euler's number, the digit sequence both scans run
/// over. Only the digit characters after the decimal point count; the
/// newlines are source formatting and are discarded by the parse.
pub const RAW_E: &'static str = "2.718281828459045235360287471352662497757247093699959574966\n\
967627724076630353547594571382178525166427427466391932003059\n\
921817413596629043572900334295260595630738132328627943490763\n\
233829880753195251019011573834187930702154089149934884167509\n\
244761460668082264800168477411853742345442437107539077744992\n\
069551702761838606261331384583000752044933826560297606737113\n\
200709328709127443747047230696977209310141692836819025515108\n\
657463772111252389784425056953696770785449969967946864454905\n\
987931636889230098793127736178215424999229576351482208269895\n\
193668033182528869398496465105820939239829488793320362509443\n\
117301238197068416140397019837679320683282376464804295311802\n\
328782509819455815301756717361332069811250996181881593041690\n\
351598888519345807273866738589422879228499892086805825749279\n\
610484198444363463244968487560233624827041978623209002160990\n\
235304369941849146314093431738143640546253152096183690888707\n\
016768396424378140592714563549061303107208510383750510115747\n\
704171898610687396965521267154688957035035402123407849819334\n\
321068170121005627880235193033224745015853904730419957777093\n\
503660416997329725088687696640355570716226844716256079882651\n\
787134195124665201030592123667719432527867539855894489697096\n\
409754591856956380236370162112047742722836489613422516445078\n\
182442352948636372141740238893441247963574370263755294448337\n\
998016125492278509257782562092622648326277933386566481627725\n\
164019105900491644998289315056604725802778631864155195653244\n\
258698294695930801915298721172556347546396447910145904090586\n\
298496791287406870504895858671747985466775757320568128845920\n\
541334053922000113786300945560688166740016984205580403363795\n\
376452030402432256613527836951177883863874439662532249850654\n\
995886234281899707733276171783928034946501434558897071942586\n\
398772754710962953741521115136835062752602326484728703920764\n\
310059584116612054529703023647254929666938115137322753645098\n\
889031360205724817658511806303644281231496550704751025446501\n\
172721155519486685080036853228183152196003735625279449515828";

/// The digit-sum a password window must have.
pub const TARGET_SUM: u32 = 49;

/// Does `factor` divide `candidate` evenly?
pub open spec fn divides(factor: nat, candidate: nat) -> bool {
    candidate % factor == 0
}

/// Exact primality of a natural number: greater than one, with no divisor
/// strictly between one and itself.
pub open spec fn spec_is_prime(candidate: nat) -> bool {
    &&& 1 < candidate
    &&& forall|factor: nat| 1 < factor < candidate ==> !divides(factor, candidate)
}

/// Relies on primes::is_prime: an exact trial-division primality test for
/// u64 (first factor of an odd candidate is searched among the odd numbers up
/// to its square root). The bound keeps the candidate far below the range
/// where the crate's internal square computation could overflow.
#[verifier::external_body]
fn primality(n: u64) -> (r: bool)
    requires
        n < 10000000000,
    ensures
        r == spec_is_prime(n as nat),
{
    primes::is_prime(n)
}

/// The prime scan from cursor `c`: the value of the first window at or after
/// `c` that is prime, or `None` when no remaining window has one.
pub open spec fn prime_search(s: Seq<u32>, c: int) -> Option<nat>
    decreases s.len() - c,
{
    if !can_read(s, c) {
        None
    } else if spec_is_prime(window_value(s, c)) {
        Some(window_value(s, c))
    } else {
        prime_search(s, c + 1)
    }
}

/// Is this window value one of the four known decoys?
pub open spec fn spec_excluded(v: nat) -> bool {
    v == 7182818284 || v == 8182845904 || v == 8747135266 || v == 7427466391
}

/// The password predicate for the window at `c`: its digit-sum equals
/// `TARGET_SUM` and its value is not a known decoy.
pub open spec fn password_match(s: Seq<u32>, c: int) -> bool {
    window_sum(s, c) == TARGET_SUM && !spec_excluded(window_value(s, c))
}

/// The password scan from cursor `c`: the value of the first window at or
/// after `c` that satisfies the password predicate, or `None`.
pub open spec fn password_search(s: Seq<u32>, c: int) -> Option<nat>
    decreases s.len() - c,
{
    if !can_read(s, c) {
        None
    } else if password_match(s, c) {
        Some(window_value(s, c))
    } else {
        password_search(s, c + 1)
    }
}

/// Is this window value one of the four known decoys?
fn is_excluded(v: u64) -> (r: bool)
    ensures
        r == spec_excluded(v as nat),
{
    v == 7182818284 || v == 8182845904 || v == 8747135266 || v == 7427466391
}

/// Scans the digits of the literal `s` for the first ten-digit window whose
/// value is prime. Returns `ParseError` exactly when `s` yields no digits,
/// the value of the first prime window when one exists, and `NotFound` when
/// the digits hold no prime window.
pub fn find_prime(s: &str) -> (r: Result<u64, ScanError>)
    ensures
        ({
            let d = frac_digits(s@);
            &&& d.len() == 0 ==> r == Err::<u64, ScanError>(ScanError::ParseError)
            &&& d.len() > 0 ==> (match prime_search(d, 0) {
                Some(v) => r == Ok::<u64, ScanError>(v as u64),
                None => r == Err::<u64, ScanError>(ScanError::NotFound),
            })
        }),
{
    let ghost d = frac_digits(s@);
    let mut e = match E::from_str(s) {
        Ok(e) => e,
        Err(_) => {
            return Err(ScanError::ParseError);
        },
    };
    loop
        invariant
            d == frac_digits(s@),
            e.wf(),
            e.digits() == d,
            d.len() > 0,
            prime_search(d, e.cursor()) == prime_search(d, 0),
        decreases d.len() + 1 - e.cursor(),
    {
        let ghost c = e.cursor();
        match e.get_next_number(WINDOW_WIDTH) {
            Err(_) => {
                return Err(ScanError::NotFound);
            },
            Ok(v) => {
                proof {
                    lemma_window_value_fits(d, c);
                }
                if primality(v) {
                    return Ok(v);
                }
            },
        }
    }
}

/// Scans the digits of the literal `s` for the first ten-digit window whose
/// digit-sum is `TARGET_SUM` and whose value is not a known decoy. Returns
/// `ParseError` exactly when `s` yields no digits, the value of the first
/// matching window when one exists, and `NotFound` when no window matches.
pub fn find_password(s: &str) -> (r: Result<u64, ScanError>)
    ensures
        ({
            let d = frac_digits(s@);
            &&& d.len() == 0 ==> r == Err::<u64, ScanError>(ScanError::ParseError)
            &&& d.len() > 0 ==> (match password_search(d, 0) {
                Some(v) => r == Ok::<u64, ScanError>(v as u64),
                None => r == Err::<u64, ScanError>(ScanError::NotFound),
            })
        }),
{
    let ghost d = frac_digits(s@);
    let mut e = match E::from_str(s) {
        Ok(e) => e,
        Err(_) => {
            return Err(ScanError::ParseError);
        },
    };
    loop
        invariant
            d == frac_digits(s@),
            e.wf(),
            e.digits() == d,
            d.len() > 0,
            password_search(d, e.cursor()) == password_search(d, 0),
        decreases d.len() + 1 - e.cursor(),
    {
        let ghost c = e.cursor();
        match e.sum_of_next_number(WINDOW_WIDTH) {
            Err(_) => {
                return Err(ScanError::NotFound);
            },
            Ok((v, sum)) => {
                proof {
                    lemma_window_value_fits(d, c);
                    lemma_window_sum_fits(d, c);
                }
                if sum == TARGET_SUM && !is_excluded(v) {
                    return Ok(v);
                }
            },
        }
    }
}

} // verus!
