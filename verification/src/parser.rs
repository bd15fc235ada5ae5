//! The tabular-dataset adapter's compute half: turning already-split CSV
//! rows of a NONMEM-style dataset into well-formed subject records. The
//! file reading itself stays outside the library.

use vstd::prelude::*;
use vstd::string::StrSliceExecFns;
use crate::errors::NcaError;
use crate::models::{subject_wf, Demographics, DosingEvent, DosingRoute, Observation, Subject, MAX_CONC, MAX_COVARIATE, MAX_OBS, MAX_TIME};
use crate::SCALE;

verus! {

/// One row of the dataset, already mapped to the fixed column set.
pub struct CsvRow {
    pub id: Option<String>,
    pub time: Option<String>,
    pub dv: Option<String>,
    pub amt: Option<String>,
    pub evid: Option<String>,
    pub rate: Option<String>,
    pub blq: Option<String>,
    pub lloq: Option<String>,
    pub age: Option<String>,
    pub wt: Option<String>,
    pub ht: Option<String>,
    pub sex: Option<String>,
    pub race: Option<String>,
    pub trt: Option<String>,
    pub stday: Option<String>,
    pub period: Option<String>,
    pub seq_label: Option<String>,
    pub form: Option<String>,
}

/// Is this character a decimal digit?
pub open spec fn is_digit_char(c: char) -> bool {
    48 <= c as u32 <= 57
}

/// The numeric value of a digit character.
pub open spec fn digit_of(c: char) -> int {
    c as u32 - 48
}

/// The value of the characters in [lo, hi) read as decimal digits.
pub open spec fn digits_val_at(s: Seq<char>, lo: int, hi: int) -> int
    decreases hi - lo,
{
    if hi <= lo {
        0
    } else {
        digits_val_at(s, lo, hi - 1) * 10 + digit_of(s[hi - 1])
    }
}

/// The value of the first k characters read as decimal digits.
pub open spec fn digits_val(s: Seq<char>, k: int) -> int {
    digits_val_at(s, 0, k)
}

/// Every character in [lo, hi) is a digit.
pub open spec fn digits_in(s: Seq<char>, lo: int, hi: int) -> bool {
    forall|i: int| lo <= i < hi ==> is_digit_char(#[trigger] s[i])
}

/// Every one of the first k characters is a digit.
pub open spec fn all_digits(s: Seq<char>, k: int) -> bool {
    digits_in(s, 0, k)
}

/// Text this parser accepts as an integer: an optional sign, then one or
/// more digits.
pub open spec fn valid_int_text(s: Seq<char>) -> bool {
    ||| (s.len() >= 1 && digits_in(s, 0, s.len() as int))
    ||| (s.len() >= 2 && (s[0] == '-' || s[0] == '+') && digits_in(s, 1, s.len() as int))
}

/// The signed value of valid integer text.
pub open spec fn int_text_value(s: Seq<char>) -> int {
    if s.len() >= 1 && s[0] == '-' {
        -digits_val_at(s, 1, s.len() as int)
    } else if s.len() >= 1 && s[0] == '+' {
        digits_val_at(s, 1, s.len() as int)
    } else {
        digits_val_at(s, 0, s.len() as int)
    }
}

/// Lower-case an ASCII letter code, leave everything else alone.
pub open spec fn lower_code(u: u32) -> u32 {
    if 65 <= u <= 90 {
        (u + 32) as u32
    } else {
        u
    }
}

/// Case-insensitive (ASCII) equality of two character sequences.
pub open spec fn ci_equal(a: Seq<char>, b: Seq<char>) -> bool {
    a.len() == b.len() && forall|i: int|
        0 <= i < a.len() ==> lower_code(#[trigger] a[i] as u32) == lower_code(b[i] as u32)
}

pub struct NonmemParser;

impl NonmemParser {
    /// Parse a decimal i32: an optional sign, then digits. The result is
    /// the text's value exactly when the text is valid and the value fits
    /// an i32, and nothing otherwise.
    pub fn parse_int(s: &str) -> (r: Option<i32>)
        ensures
            r == (if valid_int_text(s@) && -0x8000_0000 <= int_text_value(s@) <= 0x7fff_ffff {
                Some(int_text_value(s@) as i32)
            } else {
                None
            }),
    {
        let n = s.unicode_len();
        if n == 0 {
            return None;
        }
        let first = s.get_char(0);
        let (neg, start) = if first == '-' {
            (true, 1usize)
        } else if first == '+' {
            (false, 1usize)
        } else {
            (false, 0usize)
        };
        if start >= n {
            return None;
        }
        let mut acc: i64 = 0;
        let mut i: usize = start;
        proof {
            if s@.len() >= 1 && digits_in(s@, 0, s@.len() as int) {
                assert(is_digit_char(s@[0]));
                assert(first == s@[0]);
                assert('-' as u32 == 45 && '+' as u32 == 43);
                assert(start == 0);
            }
        }
        while i < n
            invariant
                start <= i <= n,
                n == s@.len(),
                start < n,
                start == 0 || start == 1,
                start == 1 ==> (s@[0] == '-' || s@[0] == '+'),
                s@[0] == '-' ==> (start == 1 && neg),
                s@[0] == '+' ==> (start == 1 && !neg),
                neg ==> s@[0] == '-',
                (s@.len() >= 1 && digits_in(s@, 0, s@.len() as int)) ==> start == 0,
                start == 0 ==> !neg && s@[0] != '-' && s@[0] != '+',
                0 <= acc,
                acc < 10_000_000_000i64,
                digits_in(s@, start as int, i as int),
                acc == digits_val_at(s@, start as int, i as int),
            decreases n - i,
        {
            let c = s.get_char(i);
            let u = c as u32;
            if u < 48 || u > 57 {
                return None;
            }
            if acc >= 1_000_000_000 {
                proof {
                    if valid_int_text(s@) {
                        assert(digits_in(s@, start as int, n as int));
                        lemma_digits_grow(s@, start as int, i as int, n as int);
                        lemma_pow10_pos(n as int - i as int);
                        assert(pow10(n as int - i as int) >= 10) by {
                            assert(pow10(n as int - i as int) == 10 * pow10(n as int - i - 1));
                            lemma_pow10_pos(n as int - i - 1);
                        }
                        assert(digits_val_at(s@, start as int, n as int) >= 1_000_000_000 * 10)
                            by (nonlinear_arith)
                            requires
                                digits_val_at(s@, start as int, n as int) >= digits_val_at(
                                    s@,
                                    start as int,
                                    i as int,
                                ) * pow10(n as int - i as int),
                                digits_val_at(s@, start as int, i as int) >= 1_000_000_000,
                                pow10(n as int - i as int) >= 10,
                        ;
                    }
                }
                return None;
            }
            acc = acc * 10 + ((u - 48) as i64);
            i = i + 1;
        }
        let signed: i64 = if neg {
            -acc
        } else {
            acc
        };
        if signed < (i32::MIN as i64) || signed > (i32::MAX as i64) {
            return None;
        }
        Some(signed as i32)
    }

    /// Parse a truth flag the way the dataset writes it: 1 / true / yes and
    /// 0 / false / no, case-insensitively.
    pub fn parse_bool(s: &str) -> (r: Option<bool>)
        ensures
            r == (if ci_equal(s@, "1"@) || ci_equal(s@, "true"@) || ci_equal(s@, "yes"@) {
                Some(true)
            } else if ci_equal(s@, "0"@) || ci_equal(s@, "false"@) || ci_equal(s@, "no"@) {
                Some(false)
            } else {
                None
            }),
    {
        if eq_ci(s, "1") || eq_ci(s, "true") || eq_ci(s, "yes") {
            Some(true)
        } else if eq_ci(s, "0") || eq_ci(s, "false") || eq_ci(s, "no") {
            Some(false)
        } else {
            None
        }
    }

    /// Parse a decimal number into fixed-point micro-units: an optional
    /// sign, an integer part, and at most six kept fractional digits.
    pub fn parse_fixed(s: &str) -> (r: Option<i128>)
        ensures
            r is Some ==> -1_000_000_000_000_000_000_000_000i128 <= r->0
                <= 1_000_000_000_000_000_000_000_000i128,
    {
        let n = s.unicode_len();
        if n == 0 {
            return None;
        }
        let first = s.get_char(0);
        let (neg, start) = if first == '-' {
            (true, 1usize)
        } else if first == '+' {
            (false, 1usize)
        } else {
            (false, 0usize)
        };
        if start >= n {
            return None;
        }
        let mut int_part: i128 = 0;
        let mut i: usize = start;
        let mut saw_digit = false;
        while i < n
            invariant
                start <= i <= n,
                n == s@.len(),
                0 <= int_part <= 1_000_000_000_000_000_000i128,
            decreases n - i,
        {
            let c = s.get_char(i);
            if c == '.' {
                break ;
            }
            let u = c as u32;
            if u < 48 || u > 57 {
                return None;
            }
            if int_part >= 100_000_000_000_000_000 {
                return None;
            }
            int_part = int_part * 10 + ((u - 48) as i128);
            saw_digit = true;
            i = i + 1;
        }
        if !saw_digit {
            return None;
        }
        let mut frac: i128 = 0;
        let mut frac_scale: i128 = SCALE;
        if i < n {
            // Skip the dot.
            let mut j: usize = i + 1;
            while j < n
                invariant
                    i + 1 <= j,
                    j <= n,
                    n == s@.len(),
                    0 <= frac,
                    frac < SCALE,
                    1 <= frac_scale <= SCALE,
                decreases n - j,
            {
                let c = s.get_char(j);
                let u = c as u32;
                if u < 48 || u > 57 {
                    return None;
                }
                if frac_scale >= 10 {
                    frac_scale = frac_scale / 10;
                    proof {
                        crate::fixed::lemma_tdiv_bounds(frac as int * 10 + 9, 1);
                    }
                    let d = (u - 48) as i128;
                    proof {
                        assert(frac * 10 + d < SCALE * 10) by (nonlinear_arith)
                            requires
                                frac < SCALE,
                                0 <= d <= 9,
                        ;
                    }
                    let f2 = frac * 10 + d;
                    frac = if f2 < SCALE {
                        f2
                    } else {
                        SCALE - 1
                    };
                }
                j = j + 1;
            }
        }
        // frac currently holds the kept digits; scale them to micro-units.
        proof {
            assert(0 <= frac * frac_scale) by (nonlinear_arith)
                requires
                    0 <= frac,
                    1 <= frac_scale,
            ;
            assert(frac * frac_scale < SCALE * SCALE) by (nonlinear_arith)
                requires
                    0 <= frac,
                    frac < SCALE,
                    1 <= frac_scale <= SCALE,
            ;
        }
        let frac_micro = frac * frac_scale;
        let magnitude = int_part * SCALE + frac_micro;
        proof {
            assert(int_part * SCALE <= 1_000_000_000_000_000_000_000_000i128) by (nonlinear_arith)
                requires
                    0 <= int_part <= 1_000_000_000_000_000_000i128,
            ;
            assert(0 <= int_part * SCALE) by (nonlinear_arith)
                requires
                    0 <= int_part,
            ;
        }
        if magnitude > 1_000_000_000_000_000_000_000_000 {
            return None;
        }
        if neg {
            Some(-magnitude)
        } else {
            Some(magnitude)
        }
    }

    /// Map one positionally split record onto the fixed column set.
    pub fn parse_record(record: &Vec<String>) -> (r: CsvRow)
    {
        CsvRow {
            id: pick(record, 0),
            time: pick(record, 1),
            dv: pick(record, 2),
            amt: pick(record, 3),
            evid: pick(record, 4),
            rate: pick(record, 6),
            blq: pick(record, 11),
            lloq: pick(record, 12),
            age: pick(record, 13),
            wt: pick(record, 14),
            ht: pick(record, 15),
            sex: pick(record, 16),
            race: pick(record, 17),
            trt: pick(record, 18),
            stday: pick(record, 19),
            period: pick(record, 20),
            seq_label: pick(record, 21),
            form: pick(record, 22),
        }
    }

    /// Assemble subjects from rows, grouping by the ID column in first
    /// appearance order. Rows without an ID or a readable TIME are rejected.
    pub fn parse_rows(rows: &Vec<CsvRow>) -> (r: Result<Vec<Subject>, NcaError>)
        ensures
            match r {
                Ok(subjects) => forall|i: int|
                    0 <= i < subjects@.len() ==> subject_wf(#[trigger] subjects@[i]),
                Err(e) => e matches NcaError::ParseError(_),
            },
    {
        let mut subjects: Vec<Subject> = Vec::new();
        let mut ri: usize = 0;
        while ri < rows.len()
            invariant
                0 <= ri <= rows@.len(),
                forall|i: int| 0 <= i < subjects@.len() ==> subject_wf(#[trigger] subjects@[i]),
            decreases rows@.len() - ri,
        {
            let row = &rows[ri];
            let id = match &row.id {
                Some(v) => v.clone(),
                None => {
                    return Err(NcaError::ParseError("Missing ID column".to_owned()));
                },
            };
            // Find or create the subject.
            let mut si: usize = 0;
            let mut found: Option<usize> = None;
            while si < subjects.len()
                invariant
                    0 <= si <= subjects@.len(),
                    found is Some ==> found->0 < subjects@.len(),
                decreases subjects@.len() - si,
            {
                if found.is_none() && subjects[si].id == id {
                    found = Some(si);
                }
                si = si + 1;
            }
            let target = match found {
                Some(t) => t,
                None => {
                    let fresh = Subject {
                        id: id.clone(),
                        observations: Vec::new(),
                        dosing_events: Vec::new(),
                        demographics: Demographics::default(),
                    };
                    subjects.push(fresh);
                    subjects.len() - 1
                },
            };
            let mut subject = subjects.remove(target);
            let ok = Self::process_row(row, &mut subject);
            subjects.insert(target, subject);
            if !ok {
                return Err(NcaError::ParseError("Unreadable or out-of-range numeric value".to_owned()));
            }
            ri = ri + 1;
        }
        Ok(subjects)
    }

    /// Fold one row into a subject: an observation for EVID 0, a dosing
    /// event for EVID 1, demographics in any case. False when a required
    /// number is unreadable or the subject is full.
    pub fn process_row(row: &CsvRow, subject: &mut Subject) -> (ok: bool)
        requires
            subject_wf(*old(subject)),
        ensures
            subject_wf(*final(subject)),
    {
        let time = match &row.time {
            Some(t) => {
                match Self::parse_fixed(t.as_str()) {
                    Some(v) => {
                        if v < 0 || v > MAX_TIME {
                            return false;
                        }
                        v
                    },
                    None => {
                        return false;
                    },
                }
            },
            None => {
                return false;
            },
        };
        let evid = match &row.evid {
            Some(e) => {
                match Self::parse_int(e.as_str()) {
                    Some(v) => v,
                    None => 0,
                }
            },
            None => 0,
        };
        if evid == 0 {
            let concentration = match &row.dv {
                Some(d) => {
                    match Self::parse_fixed(d.as_str()) {
                        Some(v) => {
                            if v < -MAX_CONC || v > MAX_CONC {
                                return false;
                            }
                            v
                        },
                        None => {
                            return false;
                        },
                    }
                },
                None => {
                    return false;
                },
            };
            let lloq = match &row.lloq {
                Some(l) => {
                    match Self::parse_fixed(l.as_str()) {
                        Some(v) => {
                            if 0 <= v && v <= MAX_CONC {
                                Some(v)
                            } else {
                                None
                            }
                        },
                        None => None,
                    }
                },
                None => None,
            };
            let bloq = match &row.blq {
                Some(b) => {
                    match Self::parse_bool(b.as_str()) {
                        Some(v) => v,
                        None => false,
                    }
                },
                None => false,
            };
            if subject.observations.len() >= MAX_OBS {
                return false;
            }
            subject.observations.push(
                Observation { time, concentration, lloq, bloq, evid, dv: concentration },
            );
        } else if evid == 1 {
            let dose = match &row.amt {
                Some(a) => {
                    match Self::parse_fixed(a.as_str()) {
                        Some(v) => {
                            if v < 0 || v > MAX_CONC {
                                return false;
                            }
                            v
                        },
                        None => {
                            return false;
                        },
                    }
                },
                None => {
                    return false;
                },
            };
            let rate = match &row.rate {
                Some(rt) => Self::parse_fixed(rt.as_str()),
                None => None,
            };
            let (route, infusion_duration) = Self::determine_dosing_route(rate, dose);
            if subject.dosing_events.len() >= MAX_OBS {
                return false;
            }
            subject.dosing_events.push(
                DosingEvent { time, dose, route, infusion_duration, evid },
            );
        }
        Self::update_demographics(row, subject);
        true
    }

    /// A positive rate means an infusion with duration dose / rate; the
    /// sentinel -1 means a bolus, -2 an oral dose.
    pub fn determine_dosing_route(rate: Option<i128>, dose: i128) -> (r: (
        DosingRoute,
        Option<i128>,
    ))
        requires
            0 <= dose <= MAX_CONC,
        ensures
            r.1 is Some ==> 0 <= r.1->0 <= MAX_TIME,
            (rate is Some && rate->0 > 0) ==> r.0 == DosingRoute::IntravenousInfusion,
            (rate is Some && rate->0 == -(SCALE as i128)) ==> r.0 == DosingRoute::IntravenousBolus
                && r.1 is None,
            (rate is Some && rate->0 == -2 * SCALE) ==> r.0 == DosingRoute::Oral && r.1 is None,
    {
        match rate {
            Some(rt) => {
                if rt > 0 {
                    proof {
                        crate::fixed::lemma_tdiv_bounds(dose as int * SCALE as int, rt as int);
                        assert(0 <= dose * SCALE <= (MAX_CONC as int) * (SCALE as int))
                            by (nonlinear_arith)
                            requires
                                0 <= dose <= MAX_CONC,
                        ;
                    }
                    let duration = crate::fixed::div_trunc(dose * SCALE, rt);
                    if 0 <= duration && duration <= MAX_TIME {
                        (DosingRoute::IntravenousInfusion, Some(duration))
                    } else {
                        (DosingRoute::IntravenousInfusion, None)
                    }
                } else if rt == -SCALE {
                    (DosingRoute::IntravenousBolus, None)
                } else if rt == -2 * SCALE {
                    (DosingRoute::Oral, None)
                } else {
                    (DosingRoute::IntravenousBolus, None)
                }
            },
            None => (DosingRoute::IntravenousBolus, None),
        }
    }

    /// Carry demographic columns into the subject where readable.
    #[verifier::rlimit(60)]
    pub fn update_demographics(row: &CsvRow, subject: &mut Subject) -> (ok: bool)
        requires
            subject_wf(*old(subject)),
        ensures
            subject_wf(*final(subject)),
            final(subject).observations == old(subject).observations,
            final(subject).dosing_events == old(subject).dosing_events,
            final(subject).id == old(subject).id,
    {
        match &row.age {
            Some(v) => {
                match Self::parse_fixed(v.as_str()) {
                    Some(a) => {
                        if 0 <= a && a <= MAX_COVARIATE {
                            subject.demographics.age = Some(a);
                        }
                    },
                    None => {},
                }
            },
            None => {},
        }
        match &row.wt {
            Some(v) => {
                match Self::parse_fixed(v.as_str()) {
                    Some(w) => {
                        if 0 <= w && w <= MAX_COVARIATE {
                            subject.demographics.weight = Some(w);
                        }
                    },
                    None => {},
                }
            },
            None => {},
        }
        match &row.ht {
            Some(v) => {
                match Self::parse_fixed(v.as_str()) {
                    Some(h) => {
                        if 0 <= h && h <= MAX_COVARIATE {
                            subject.demographics.height = Some(h);
                        }
                    },
                    None => {},
                }
            },
            None => {},
        }
        match &row.sex {
            Some(v) => {
                if v.as_str().unicode_len() > 0 {
                    subject.demographics.sex = Some(v.clone());
                }
            },
            None => {},
        }
        match &row.race {
            Some(v) => {
                if v.as_str().unicode_len() > 0 {
                    subject.demographics.race = Some(v.clone());
                }
            },
            None => {},
        }
        match &row.trt {
            Some(v) => {
                if v.as_str().unicode_len() > 0 {
                    subject.demographics.treatment = Some(v.clone());
                }
            },
            None => {},
        }
        match &row.stday {
            Some(v) => {
                match Self::parse_int(v.as_str()) {
                    Some(d) => {
                        subject.demographics.study_day = Some(d);
                    },
                    None => {},
                }
            },
            None => {},
        }
        match &row.period {
            Some(v) => {
                match Self::parse_int(v.as_str()) {
                    Some(p) => {
                        subject.demographics.period = Some(p);
                    },
                    None => {},
                }
            },
            None => {},
        }
        match &row.seq_label {
            Some(v) => {
                if v.as_str().unicode_len() > 0 {
                    subject.demographics.sequence = Some(v.clone());
                }
            },
            None => {},
        }
        match &row.form {
            Some(v) => {
                if v.as_str().unicode_len() > 0 {
                    subject.demographics.formulation = Some(v.clone());
                }
            },
            None => {},
        }
        true
    }
}

/// Digits only grow a value: reading on multiplies by powers of ten.
proof fn lemma_digits_grow(s: Seq<char>, lo: int, mid: int, hi: int)
    requires
        0 <= lo <= mid <= hi <= s.len(),
        digits_in(s, lo, hi),
    ensures
        digits_val_at(s, lo, hi) >= digits_val_at(s, lo, mid) * pow10(hi - mid),
        digits_val_at(s, lo, hi) >= 0,
    decreases hi - mid,
{
    lemma_digits_nonneg(s, lo, hi);
    if mid == hi {
        assert(pow10(0) == 1);
        assert(digits_val_at(s, lo, mid) * 1 == digits_val_at(s, lo, mid)) by (nonlinear_arith);
    } else {
        lemma_digits_grow(s, lo, mid, hi - 1);
        assert(is_digit_char(s[hi - 1]));
        assert(pow10(hi - mid) == 10 * pow10(hi - mid - 1));
        assert(digits_val_at(s, lo, hi - 1) * 10 + digit_of(s[hi - 1]) >= digits_val_at(
            s,
            lo,
            mid,
        ) * (10 * pow10(hi - mid - 1))) by (nonlinear_arith)
            requires
                digits_val_at(s, lo, hi - 1) >= digits_val_at(s, lo, mid) * pow10(hi - mid - 1),
                digit_of(s[hi - 1]) >= 0,
        ;
    }
}

/// A digit string's value is non-negative.
proof fn lemma_digits_nonneg(s: Seq<char>, lo: int, hi: int)
    requires
        0 <= lo,
        hi <= s.len(),
        digits_in(s, lo, hi),
    ensures
        digits_val_at(s, lo, hi) >= 0,
    decreases hi - lo,
{
    if hi > lo {
        lemma_digits_nonneg(s, lo, hi - 1);
        assert(is_digit_char(s[hi - 1]));
        assert(digits_val_at(s, lo, hi - 1) * 10 >= 0) by (nonlinear_arith)
            requires
                digits_val_at(s, lo, hi - 1) >= 0,
        ;
    }
}

/// Powers of ten are positive.
proof fn lemma_pow10_pos(k: int)
    ensures
        pow10(k) >= 1,
    decreases
            if k >= 0 {
                k
            } else {
                0
            },
{
    if k > 0 {
        lemma_pow10_pos(k - 1);
    }
}

/// Powers of ten.
spec fn pow10(k: int) -> int
    decreases
            if k >= 0 {
                k
            } else {
                0
            },
{
    if k <= 0 {
        1
    } else {
        10 * pow10(k - 1)
    }
}

/// The i-th column of a record, when present.
fn pick(record: &Vec<String>, i: usize) -> (r: Option<String>)
    ensures
        r is Some <==> i < record@.len(),
        r is Some ==> r->0@ == record@[i as int]@,
{
    if i < record.len() {
        Some(record[i].clone())
    } else {
        None
    }
}

/// Case-insensitive ASCII comparison of a string against a literal.
pub fn eq_ci(s: &str, lit: &str) -> (r: bool)
    ensures
        r == ci_equal(s@, lit@),
{
    let n = s.unicode_len();
    let m = lit.unicode_len();
    if n != m {
        return false;
    }
    let mut i: usize = 0;
    while i < n
        invariant
            0 <= i <= n,
            n == s@.len(),
            n == lit@.len(),
            forall|k: int|
                0 <= k < i ==> lower_code(#[trigger] s@[k] as u32) == lower_code(lit@[k] as u32),
        decreases n - i,
    {
        let a = s.get_char(i) as u32;
        let b = lit.get_char(i) as u32;
        let la = if 65 <= a && a <= 90 {
            a + 32
        } else {
            a
        };
        let lb = if 65 <= b && b <= 90 {
            b + 32
        } else {
            b
        };
        if la != lb {
            return false;
        }
        i = i + 1;
    }
    true
}

} // verus!
