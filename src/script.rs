use vstd::prelude::*;

verus! {

/// One turtle instruction.
#[derive(Clone, Copy, Debug, PartialEq, Eq, Structural)]
pub enum Instruction {
    /// `pu`: lift the pen.
    PenUp,
    /// `pd`: lower the pen.
    PenDown,
    /// `fd d`: move by the signed distance `d` along the heading.
    Forward(i64),
    /// `rt a`: turn by the signed angle `a`, in degrees.
    Turn(i64),
}

/// Why a script or a configuration was refused.
#[derive(Clone, Copy, Debug, PartialEq, Eq, Structural)]
pub enum ScriptError {
    /// The leading token of the line (counted from 0) is not an instruction.
    InvalidInstruction { line: usize },
    /// `fd` or `rt` on the line (counted from 0) has a missing or malformed
    /// argument.
    MalformedArgument { line: usize },
    /// A speed or the spawn interval is zero.
    InvalidConfiguration,
    /// A keyframe's time, position or heading does not fit its integer type.
    OutOfRange,
}

} // verus!

verus! {

pub open spec fn is_digit(c: u8) -> bool {
    48 <= c <= 57
}

pub open spec fn all_digits(t: Seq<u8>) -> bool {
    forall|i: int| 0 <= i < t.len() ==> is_digit(#[trigger] t[i])
}

/// The value of a run of decimal digits.
pub open spec fn digits_val(t: Seq<u8>) -> int
    decreases t.len(),
{
    if t.len() == 0 {
        0
    } else {
        digits_val(t.drop_last()) * 10 + (t.last() - 48)
    }
}

/// The value of a signed decimal integer: an optional `-` or `+`, then one
/// or more digits, whose magnitude is at most `i64::MAX`.
pub open spec fn number_spec(tok: Seq<u8>) -> Option<int> {
    let signed = tok.len() > 0 && (tok[0] == 45 || tok[0] == 43);
    let ds = if signed { tok.drop_first() } else { tok };
    if ds.len() > 0 && all_digits(ds) && digits_val(ds) <= i64::MAX {
        Some(if signed && tok[0] == 45 { -digits_val(ds) } else { digits_val(ds) })
    } else {
        None
    }
}

/// The index of the first space at or after `i`, or the length of the line.
pub open spec fn field_end(l: Seq<u8>, i: int) -> int
    decreases l.len() - i,
{
    if i >= l.len() || l[i] == 32 {
        i
    } else {
        field_end(l, i + 1)
    }
}

/// The instruction on the line numbered `k`: its fields are separated by
/// single spaces, the first is the instruction and the second its argument;
/// further fields are ignored.
pub open spec fn line_spec(l: Seq<u8>, k: usize) -> Result<Instruction, ScriptError> {
    let e0 = field_end(l, 0);
    let op = l.subrange(0, e0);
    let arg = if e0 < l.len() { number_spec(l.subrange(e0 + 1, field_end(l, e0 + 1))) } else { None };
    if op == seq![112u8, 117u8] {
        Ok(Instruction::PenUp)
    } else if op == seq![112u8, 100u8] {
        Ok(Instruction::PenDown)
    } else if op == seq![102u8, 100u8] || op == seq![114u8, 116u8] {
        match arg {
            Some(v) => if op == seq![102u8, 100u8] {
                Ok(Instruction::Forward(v as i64))
            } else {
                Ok(Instruction::Turn(v as i64))
            },
            None => Err(ScriptError::MalformedArgument { line: k }),
        }
    } else {
        Err(ScriptError::InvalidInstruction { line: k })
    }
}

proof fn lemma_digits_monotone(t: Seq<u8>, i: int, j: int)
    requires
        0 <= i <= j <= t.len(),
        all_digits(t),
    ensures
        digits_val(t.subrange(0, i)) <= digits_val(t.subrange(0, j)),
    decreases j - i,
{
    if i < j {
        lemma_digits_monotone(t, i, j - 1);
        let s = t.subrange(0, j);
        assert(s.drop_last() =~= t.subrange(0, j - 1));
        assert(is_digit(t[j - 1]));
        assert(digits_val(s) == digits_val(t.subrange(0, j - 1)) * 10 + (t[j - 1] - 48));
        assert(digits_val(t.subrange(0, j - 1)) >= 0) by {
            lemma_digits_nonneg(t.subrange(0, j - 1));
        }
    }
}

proof fn lemma_digits_nonneg(t: Seq<u8>)
    requires
        all_digits(t),
    ensures
        digits_val(t) >= 0,
    decreases t.len(),
{
    if t.len() > 0 {
        assert(all_digits(t.drop_last()));
        lemma_digits_nonneg(t.drop_last());
        assert(is_digit(t[t.len() - 1]));
    }
}

fn field_end_exec(l: &Vec<u8>, i: usize) -> (r: usize)
    requires
        i <= l.len(),
    ensures
        r as int == field_end(l@, i as int),
        i <= r <= l.len(),
{
    let mut j = i;
    while j < l.len() && l[j] != 32
        invariant
            i <= j <= l.len(),
            field_end(l@, i as int) == field_end(l@, j as int),
        decreases l.len() - j,
    {
        j += 1;
    }
    j
}

/// Parses the signed decimal integer in `l[a..b]`.
fn parse_number(l: &Vec<u8>, a: usize, b: usize) -> (r: Option<i64>)
    requires
        a <= b <= l.len(),
    ensures
        r matches Some(v) ==> number_spec(l@.subrange(a as int, b as int)) == Some(v as int),
        r is None ==> number_spec(l@.subrange(a as int, b as int)) is None,
{
    let ghost tok = l@.subrange(a as int, b as int);
    let neg = a < b && l[a] == 45;
    let start = if a < b && (l[a] == 45 || l[a] == 43) { a + 1 } else { a };
    let ghost ds = l@.subrange(start as int, b as int);
    assert(ds =~= (if tok.len() > 0 && (tok[0] == 45 || tok[0] == 43) { tok.drop_first() } else { tok }));
    if start == b {
        return None;
    }
    let mut acc: u64 = 0;
    let mut j = start;
    while j < b
        invariant
            start <= j <= b <= l.len(),
            ds == l@.subrange(start as int, b as int),
            tok == l@.subrange(a as int, b as int),
            ds == (if tok.len() > 0 && (tok[0] == 45 || tok[0] == 43) { tok.drop_first() } else { tok }),
            neg == (tok.len() > 0 && tok[0] == 45),
            acc <= i64::MAX,
            all_digits(ds.subrange(0, j - start)),
            acc == digits_val(ds.subrange(0, j - start)),
        decreases b - j,
    {
        let c = l[j];
        if c < 48 || c > 57 {
            assert(!is_digit(ds[j - start]));
            return None;
        }
        let d = (c - 48) as u64;
        proof {
            let s = ds.subrange(0, j - start + 1);
            assert(s.drop_last() =~= ds.subrange(0, j - start));
            assert(digits_val(s) == acc * 10 + d);
        }
        if acc > (0x7fff_ffff_ffff_ffffu64 - d) / 10 {
            proof {
                assert(acc * 10 + d > 0x7fff_ffff_ffff_ffffu64) by (nonlinear_arith)
                    requires acc > (0x7fff_ffff_ffff_ffffu64 - d) / 10, d <= 9;
                if all_digits(ds) {
                    lemma_digits_monotone(ds, j - start + 1, ds.len() as int);
                    assert(ds.subrange(0, ds.len() as int) =~= ds);
                }
            }
            return None;
        }
        acc = acc * 10 + d;
        j += 1;
        proof {
            assert forall|i: int| 0 <= i < j - start implies is_digit(#[trigger] ds.subrange(0, j - start)[i]) by {
                if i < j - start - 1 {
                    assert(ds.subrange(0, j - start)[i] == ds.subrange(0, j - start - 1)[i]);
                }
            }
        }
    }
    assert(ds.subrange(0, j - start) =~= ds);
    if neg {
        Some(-(acc as i64))
    } else {
        Some(acc as i64)
    }
}

fn is_op(l: &Vec<u8>, e0: usize, c0: u8, c1: u8) -> (r: bool)
    requires
        e0 <= l.len(),
    ensures
        r == (l@.subrange(0, e0 as int) == seq![c0, c1]),
{
    if e0 == 2 && l[0] == c0 && l[1] == c1 {
        assert(l@.subrange(0, 2) =~= seq![c0, c1]);
        true
    } else {
        assert(e0 != 2 ==> l@.subrange(0, e0 as int).len() != seq![c0, c1].len());
        false
    }
}

/// Parses one line of a script; `k` is its number, counted from 0, which an
/// error reports.
pub fn parse_line(l: &Vec<u8>, k: usize) -> (r: Result<Instruction, ScriptError>)
    ensures
        r == line_spec(l@, k),
{
    let e0 = field_end_exec(l, 0);
    if is_op(l, e0, 112, 117) {
        return Ok(Instruction::PenUp);
    }
    if is_op(l, e0, 112, 100) {
        return Ok(Instruction::PenDown);
    }
    let fd = is_op(l, e0, 102, 100);
    let rt = is_op(l, e0, 114, 116);
    if !fd && !rt {
        return Err(ScriptError::InvalidInstruction { line: k });
    }
    if e0 == l.len() {
        return Err(ScriptError::MalformedArgument { line: k });
    }
    let e1 = field_end_exec(l, e0 + 1);
    match parse_number(l, e0 + 1, e1) {
        Some(v) => if fd {
            Ok(Instruction::Forward(v))
        } else {
            Ok(Instruction::Turn(v))
        },
        None => Err(ScriptError::MalformedArgument { line: k }),
    }
}

} // verus!

verus! {

/// A text cut at every newline.
pub open spec fn pieces(t: Seq<u8>) -> Seq<Seq<u8>>
    decreases t.len(),
{
    if t.len() == 0 {
        seq![Seq::empty()]
    } else {
        let p = pieces(t.drop_last());
        if t.last() == 10 {
            p.push(Seq::empty())
        } else {
            p.update(p.len() - 1, p.last().push(t.last()))
        }
    }
}

/// A line that is empty or holds only spaces.
pub open spec fn blank(l: Seq<u8>) -> bool {
    forall|i: int| 0 <= i < l.len() ==> #[trigger] l[i] == 32
}

/// The pieces without the blank ones at the end.
pub open spec fn trim_blank(p: Seq<Seq<u8>>) -> Seq<Seq<u8>>
    decreases p.len(),
{
    if p.len() > 0 && blank(p.last()) {
        trim_blank(p.drop_last())
    } else {
        p
    }
}

/// The lines of a script: the text cut at every newline, without the blank
/// lines at its end.
pub open spec fn lines(t: Seq<u8>) -> Seq<Seq<u8>> {
    trim_blank(pieces(t))
}

proof fn lemma_pieces_len(t: Seq<u8>)
    ensures
        pieces(t).len() >= 1,
    decreases t.len(),
{
    if t.len() > 0 {
        lemma_pieces_len(t.drop_last());
    }
}

fn is_blank(l: &Vec<u8>) -> (r: bool)
    ensures
        r == blank(l@),
{
    let mut i: usize = 0;
    while i < l.len()
        invariant
            i <= l.len(),
            forall|j: int| 0 <= j < i ==> #[trigger] l@[j] == 32,
        decreases l.len() - i,
    {
        if l[i] != 32 {
            return false;
        }
        i += 1;
    }
    true
}

/// Parses a script: one instruction per line, blank lines at the end
/// ignored.
pub fn parse_script(text: &Vec<u8>) -> (r: Result<Vec<Instruction>, ScriptError>)
    ensures
        ({
            let ls = lines(text@);
            &&& r is Ok <==> forall|k: int| 0 <= k < ls.len() ==> (#[trigger] line_spec(ls[k], k as usize)) is Ok
            &&& r matches Ok(v) ==> v.len() == ls.len()
                && forall|k: int| 0 <= k < ls.len() ==> Ok::<Instruction, ScriptError>(#[trigger] v@[k]) == line_spec(ls[k], k as usize)
            &&& r matches Err(e) ==> exists|k: int| 0 <= k < ls.len()
                && (#[trigger] line_spec(ls[k], k as usize)) == Err::<Instruction, ScriptError>(e)
                && forall|j: int| 0 <= j < k ==> (#[trigger] line_spec(ls[j], j as usize)) is Ok
        }),
{
    // the parse and the blankness of every piece
    let mut results: Vec<Result<Instruction, ScriptError>> = Vec::new();
    let mut blanks: Vec<bool> = Vec::new();
    let mut cur: Vec<u8> = Vec::new();
    let mut i: usize = 0;
    proof {
        assert(text@.take(0) =~= Seq::<u8>::empty());
    }
    while i < text.len()
        invariant
            i <= text.len(),
            results.len() + 1 == pieces(text@.take(i as int)).len(),
            blanks.len() == results.len(),
            pieces(text@.take(i as int)).last() == cur@,
            forall|k: int| 0 <= k < results.len() ==> (#[trigger] results@[k]) == line_spec(pieces(text@.take(i as int))[k], k as usize),
            forall|k: int| 0 <= k < results.len() ==> (#[trigger] blanks@[k]) == blank(pieces(text@.take(i as int))[k]),
        decreases text.len() - i,
    {
        let ghost p = pieces(text@.take(i as int));
        let c = text[i];
        assert(text@.take(i + 1).drop_last() =~= text@.take(i as int));
        if c == 10 {
            let k = results.len();
            results.push(parse_line(&cur, k));
            blanks.push(is_blank(&cur));
            cur = Vec::new();
            proof {
                let q = pieces(text@.take(i + 1));
                assert(q == p.push(Seq::empty()));
                assert(cur@ =~= Seq::<u8>::empty());
                assert forall|m: int| 0 <= m < results.len() implies (#[trigger] results@[m]) == line_spec(q[m], m as usize)
                    && blanks@[m] == blank(q[m]) by {
                    assert(q[m] == p[m]);
                }
            }
        } else {
            cur.push(c);
            proof {
                lemma_pieces_len(text@.take(i as int));
                let q = pieces(text@.take(i + 1));
                assert(q == p.update(p.len() - 1, p.last().push(c)));
                assert(q.last() =~= cur@);
                assert forall|m: int| 0 <= m < results.len() implies (#[trigger] results@[m]) == line_spec(q[m], m as usize)
                    && blanks@[m] == blank(q[m]) by {
                    assert(q[m] == p[m]);
                }
            }
        }
        i += 1;
    }
    assert(text@.take(text.len() as int) =~= text@);
    let ghost p = pieces(text@);
    let k = results.len();
    results.push(parse_line(&cur, k));
    blanks.push(is_blank(&cur));
    assert forall|m: int| 0 <= m < results.len() implies (#[trigger] results@[m]) == line_spec(p[m], m as usize)
        && blanks@[m] == blank(p[m]) by {}
    // drop the blank pieces at the end
    let mut n = results.len();
    assert(p.take(n as int) =~= p);
    while n > 0 && blanks[n - 1]
        invariant
            n <= results.len(),
            results.len() == p.len(),
            blanks.len() == p.len(),
            forall|m: int| 0 <= m < results.len() ==> (#[trigger] blanks@[m]) == blank(p[m]),
            lines(text@) == trim_blank(p.take(n as int)),
        decreases n,
    {
        assert(p.take(n as int).drop_last() =~= p.take(n - 1));
        n -= 1;
    }
    let ghost ls = lines(text@);
    assert(ls =~= p.take(n as int));
    let mut out: Vec<Instruction> = Vec::new();
    let mut k: usize = 0;
    while k < n
        invariant
            k <= n <= results.len(),
            results.len() == p.len(),
            ls == p.take(n as int),
            ls == lines(text@),
            forall|m: int| 0 <= m < results.len() ==> (#[trigger] results@[m]) == line_spec(p[m], m as usize),
            out.len() == k,
            forall|m: int| 0 <= m < k ==> Ok::<Instruction, ScriptError>(#[trigger] out@[m]) == line_spec(ls[m], m as usize),
        decreases n - k,
    {
        let res = results[k];
        assert(res == line_spec(ls[k as int], k));
        match res {
            Ok(ins) => {
                out.push(ins);
            },
            Err(e) => {
                proof {
                    assert forall|j: int| 0 <= j < k implies (#[trigger] line_spec(ls[j], j as usize)) is Ok by {
                        assert(Ok::<Instruction, ScriptError>(out@[j]) == line_spec(ls[j], j as usize));
                    }
                    let ki = k as int;
                    assert(line_spec(ls[ki], ki as usize) == Err::<Instruction, ScriptError>(e));
                    assert(0 <= ki < ls.len());
                }
                return Err(e);
            },
        }
        k += 1;
    }
    proof {
        assert forall|m: int| 0 <= m < ls.len() implies (#[trigger] line_spec(ls[m], m as usize)) is Ok by {
            assert(Ok::<Instruction, ScriptError>(out@[m]) == line_spec(ls[m], m as usize));
        }
    }
    Ok(out)
}

} // verus!
