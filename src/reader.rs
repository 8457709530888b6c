//! The textual program format: one instruction per line, a case-insensitive
//! keyword, then an optional integer or string argument. Lines are read as
//! sequences of character codes.
use vstd::prelude::*;

use crate::op::{Instruction, Op};
use crate::registry::same_name;
use crate::text::{codes, codes_of, copy_codes};

verus! {

/// A program read from a file.
pub struct Reader {
    pub filename: String,
    pub lines: u8,
    pub code: Vec<Instruction>,
}

/// Why a line could not be read as an instruction.
#[derive(Clone, Copy, Debug, PartialEq, Eq, Structural)]
pub enum ParseError {
    /// The keyword names no operation.
    UnknownOpcode,
    /// The argument is not an integer, and the operation takes no string.
    BadArgument,
    /// The operation needs an argument and has none.
    MissingArgument,
    /// More arguments than the operation takes.
    TooManyArguments,
}

/// The codes that separate words: space, tab, line feed, vertical tab, form
/// feed and carriage return.
pub open spec fn is_space(c: i32) -> bool {
    c == 32 || (9 <= c <= 13)
}

/// The words of a line: its maximal runs of non-space codes.
pub open spec fn words(s: Seq<i32>) -> Seq<Seq<i32>>
    decreases s.len(),
{
    if s.len() == 0 {
        seq![]
    } else {
        let w = words(s.drop_last());
        let c = s.last();
        if is_space(c) {
            w
        } else if s.len() >= 2 && !is_space(s[s.len() - 2]) {
            w.drop_last().push(w.last().push(c))
        } else {
            w.push(seq![c])
        }
    }
}

/// ASCII upper case letters made lower case; other codes kept.
pub open spec fn lower(c: i32) -> i32 {
    if 65 <= c <= 90 {
        (c + 32) as i32
    } else {
        c
    }
}

pub open spec fn is_digit(c: i32) -> bool {
    48 <= c <= 57
}

/// The value of a sequence of decimal digits.
pub open spec fn digits_value(d: Seq<i32>) -> int
    decreases d.len(),
{
    if d.len() == 0 {
        0
    } else {
        digits_value(d.drop_last()) * 10 + (d.last() - 48)
    }
}

/// The digits of an integer argument: what follows its sign, if any.
pub open spec fn unsigned_part(t: Seq<i32>) -> Seq<i32> {
    if t.len() > 0 && (t[0] == 45 || t[0] == 43) {
        t.drop_first()
    } else {
        t
    }
}

pub open spec fn all_digits(d: Seq<i32>) -> bool {
    forall|k: int| 0 <= k < d.len() ==> is_digit(#[trigger] d[k])
}

/// An integer argument: an optional `+` or `-`, then one or more decimal
/// digits, with a value that fits in 32 signed bits.
pub open spec fn parse_int(t: Seq<i32>) -> Option<i32> {
    let d = unsigned_part(t);
    let v = if t.len() > 0 && t[0] == 45 {
        -digits_value(d)
    } else {
        digits_value(d)
    };
    if d.len() == 0 || !all_digits(d) {
        None
    } else if v < i32::MIN || v > i32::MAX {
        None
    } else {
        Some(v as i32)
    }
}

/// The keywords of the format and the operations they name.
pub open spec fn keyword(w: Seq<i32>) -> Option<Op> {
    if w == codes("const"@) {
        Some(Op::Const)
    } else if w == codes("add"@) {
        Some(Op::Add)
    } else if w == codes("sub"@) {
        Some(Op::Sub)
    } else if w == codes("mul"@) {
        Some(Op::Mul)
    } else if w == codes("div"@) {
        Some(Op::Div)
    } else if w == codes("pop"@) {
        Some(Op::Pop)
    } else if w == codes("push"@) {
        Some(Op::Push)
    } else if w == codes("pushstr"@) {
        Some(Op::PushStr)
    } else if w == codes("if"@) {
        Some(Op::If)
    } else if w == codes("else"@) {
        Some(Op::Else)
    } else if w == codes("endif"@) {
        Some(Op::EndIf)
    } else if w == codes("gt"@) {
        Some(Op::GT)
    } else if w == codes("lt"@) {
        Some(Op::LT)
    } else if w == codes("gte"@) {
        Some(Op::GTE)
    } else if w == codes("lte"@) {
        Some(Op::LTE)
    } else if w == codes("eq"@) {
        Some(Op::Eq)
    } else if w == codes("not"@) {
        Some(Op::Not)
    } else if w == codes("call"@) {
        Some(Op::Call)
    } else if w == codes("function"@) {
        Some(Op::Function)
    } else if w == codes("endfunction"@) {
        Some(Op::EndFunction)
    } else if w == codes("return"@) {
        Some(Op::Return)
    } else if w == codes("fork"@) {
        Some(Op::Fork)
    } else if w == codes("child"@) {
        Some(Op::Child)
    } else if w == codes("getpid"@) {
        Some(Op::GetPid)
    } else if w == codes("dbg"@) {
        Some(Op::Debug)
    } else if w == codes("print"@) {
        Some(Op::Print)
    } else if w == codes("printstr"@) {
        Some(Op::PrintStr)
    } else if w == codes("include"@) {
        Some(Op::Include)
    } else {
        None
    }
}

/// Words joined by single spaces.
pub open spec fn join_words(ws: Seq<Seq<i32>>) -> Seq<i32>
    decreases ws.len(),
{
    if ws.len() == 0 {
        seq![]
    } else if ws.len() == 1 {
        ws[0]
    } else {
        join_words(ws.drop_last()) + seq![32i32] + ws.last()
    }
}

/// `Const` pushes of the codes of `s`, last code first, so that the first
/// code ends on top of the stack.
pub open spec fn push_codes(s: Seq<i32>) -> Seq<Instruction> {
    Seq::new(s.len(), |k: int| (Op::Const, Some(s[s.len() - 1 - k])))
}

/// What a line is: instructions to append, or the name of a module to
/// include in its place.
pub open spec fn parse_line(line: Seq<i32>) -> Result<(Seq<Instruction>, Option<Seq<i32>>), ParseError> {
    let ws = words(line);
    if ws.len() == 0 || ws[0][0] == 35 {
        Ok((seq![], None))
    } else {
        let kw = ws[0].map_values(|c: i32| lower(c));
        let nargs = ws.len() - 1;
        if kw == codes("true"@) || kw == codes("false"@) {
            if nargs > 0 {
                Err(ParseError::TooManyArguments)
            } else {
                Ok((seq![(Op::Const, Some(if kw == codes("true"@) { 1i32 } else { 0i32 }))], None))
            }
        } else {
            match keyword(kw) {
                None => Err(ParseError::UnknownOpcode),
                Some(op) => {
                    if op == Op::PushStr {
                    if nargs == 0 {
                        Err(ParseError::MissingArgument)
                    } else {
                        Ok((push_codes(join_words(ws.drop_first())), None))
                    }
                } else if op == Op::Include {
                    if nargs == 0 {
                        Err(ParseError::MissingArgument)
                    } else if nargs > 1 {
                        Err(ParseError::TooManyArguments)
                    } else {
                        Ok((seq![], Some(ws[1])))
                    }
                } else if nargs > 1 {
                    Err(ParseError::TooManyArguments)
                } else if nargs == 1 {
                    match parse_int(ws[1]) {
                        Some(v) => Ok((seq![(op, Some(v))], None)),
                        None => Err(ParseError::BadArgument),
                    }
                } else if op == Op::Const || op == Op::Push {
                    Err(ParseError::MissingArgument)
                } else {
                    Ok((seq![(op, None::<i32>)], None))
                }
                },
            }
        }
    }
}

/// The views of a sequence of words.
pub open spec fn words_view(v: Seq<Vec<i32>>) -> Seq<Seq<i32>> {
    v.map_values(|w: Vec<i32>| w@)
}

fn is_space_exec(c: i32) -> (r: bool)
    ensures
        r == is_space(c),
{
    c == 32 || (9 <= c && c <= 13)
}

/// Splits a line into its words.
fn split_words(line: &Vec<i32>) -> (r: Vec<Vec<i32>>)
    ensures
        words_view(r@) == words(line@),
        forall|k: int| 0 <= k < r@.len() ==> (#[trigger] r@[k])@.len() > 0,
{
    let mut ws: Vec<Vec<i32>> = Vec::new();
    let mut i: usize = 0;
    assert(line@.subrange(0, 0) =~= Seq::<i32>::empty());
    assert(words_view(ws@) =~= Seq::<Seq<i32>>::empty());
    while i < line.len()
        invariant
            i <= line.len(),
            words_view(ws@) == words(line@.subrange(0, i as int)),
            forall|k: int| 0 <= k < ws@.len() ==> (#[trigger] ws@[k])@.len() > 0,
            i > 0 && !is_space(line@[i - 1]) ==> ws@.len() > 0,
        decreases line.len() - i,
    {
        let c = line[i];
        let ghost pre = line@.subrange(0, i as int);
        let ghost cur = line@.subrange(0, i + 1);
        assert(cur.drop_last() =~= pre);
        assert(cur.last() == c);
        let ghost before = words_view(ws@);
        if is_space_exec(c) {
        } else if i >= 1 && !is_space_exec(line[i - 1]) {
            assert(cur[cur.len() - 2] == line@[i - 1]);
            let mut w = ws.pop().unwrap();
            let ghost wv = w@;
            w.push(c);
            ws.push(w);
            assert(words_view(ws@) =~= before.drop_last().push(wv.push(c)));
        } else {
            let mut w: Vec<i32> = Vec::new();
            w.push(c);
            assert(w@ =~= seq![c]);
            ws.push(w);
            assert(words_view(ws@) =~= before.push(seq![c]));
        }
        i = i + 1;
    }
    assert(line@.subrange(0, line.len() as int) =~= line@);
    ws
}

/// A word with its ASCII letters made lower case.
fn lower_word(w: &Vec<i32>) -> (r: Vec<i32>)
    ensures
        r@ == w@.map_values(|c: i32| lower(c)),
{
    let mut r: Vec<i32> = Vec::new();
    let mut k: usize = 0;
    while k < w.len()
        invariant
            k <= w.len(),
            r@ =~= w@.subrange(0, k as int).map_values(|c: i32| lower(c)),
        decreases w.len() - k,
    {
        let c = w[k];
        r.push(if 65 <= c && c <= 90 { c + 32 } else { c });
        assert(w@.subrange(0, k + 1).map_values(|c: i32| lower(c)) =~= w@.subrange(0, k as int).map_values(|c: i32| lower(c)).push(lower(c)));
        k = k + 1;
    }
    assert(w@.subrange(0, w.len() as int) =~= w@);
    r
}

/// Reads an integer argument.
fn parse_int_exec(t: &Vec<i32>) -> (r: Option<i32>)
    ensures
        r == parse_int(t@),
{
    let n = t.len();
    if n == 0 {
        return None;
    }
    let neg = t[0] == 45;
    let signed = t[0] == 45 || t[0] == 43;
    let start: usize = if signed { 1 } else { 0 };
    let ghost d = unsigned_part(t@);
    assert(d =~= t@.subrange(start as int, n as int));
    if start >= n {
        return None;
    }
    let big: i64 = 4294967296;
    let mut acc: i64 = 0;
    let mut k: usize = start;
    assert(d.subrange(0, 0) =~= Seq::<i32>::empty());
    while k < n
        invariant
            n == t.len(),
            n > 0,
            neg == (t@[0] == 45),
            signed == (t@[0] == 45 || t@[0] == 43),
            start == if signed { 1usize } else { 0usize },
            d == unsigned_part(t@),
            d =~= t@.subrange(start as int, n as int),
            start <= k <= n,
            big == 4294967296,
            0 <= acc <= big,
            acc == if digits_value(d.subrange(0, k - start)) < big {
                digits_value(d.subrange(0, k - start))
            } else {
                big as int
            },
            forall|j: int| 0 <= j < k - start ==> is_digit(#[trigger] d[j]),
        decreases n - k,
    {
        let c = t[k];
        if !(48 <= c && c <= 57) {
            assert(!is_digit(d[k - start]));
            return None;
        }
        let ghost pre = d.subrange(0, k - start);
        let ghost cur = d.subrange(0, k - start + 1);
        assert(cur.drop_last() =~= pre);
        assert(cur.last() == c);
        acc = acc * 10 + (c - 48) as i64;
        if acc > big {
            acc = big;
        }
        k = k + 1;
    }
    assert(d.subrange(0, n - start) =~= d);
    if acc >= big {
        return None;
    }
    let v: i64 = if neg { -acc } else { acc };
    if v < -2147483648 || v > 2147483647 {
        None
    } else {
        Some(v as i32)
    }
}

/// Whether `w` holds the codes of `s`.
fn is_word(w: &Vec<i32>, s: &str) -> (r: bool)
    ensures
        r == (w@ == codes(s@)),
{
    let c = codes_of(s);
    same_name(w, &c)
}

/// The operation a keyword names.
fn keyword_exec(w: &Vec<i32>) -> (r: Option<Op>)
    ensures
        r == keyword(w@),
{
    if is_word(w, "const") {
        Some(Op::Const)
    } else if is_word(w, "add") {
        Some(Op::Add)
    } else if is_word(w, "sub") {
        Some(Op::Sub)
    } else if is_word(w, "mul") {
        Some(Op::Mul)
    } else if is_word(w, "div") {
        Some(Op::Div)
    } else if is_word(w, "pop") {
        Some(Op::Pop)
    } else if is_word(w, "push") {
        Some(Op::Push)
    } else if is_word(w, "pushstr") {
        Some(Op::PushStr)
    } else if is_word(w, "if") {
        Some(Op::If)
    } else if is_word(w, "else") {
        Some(Op::Else)
    } else if is_word(w, "endif") {
        Some(Op::EndIf)
    } else if is_word(w, "gt") {
        Some(Op::GT)
    } else if is_word(w, "lt") {
        Some(Op::LT)
    } else if is_word(w, "gte") {
        Some(Op::GTE)
    } else if is_word(w, "lte") {
        Some(Op::LTE)
    } else if is_word(w, "eq") {
        Some(Op::Eq)
    } else if is_word(w, "not") {
        Some(Op::Not)
    } else if is_word(w, "call") {
        Some(Op::Call)
    } else if is_word(w, "function") {
        Some(Op::Function)
    } else if is_word(w, "endfunction") {
        Some(Op::EndFunction)
    } else if is_word(w, "return") {
        Some(Op::Return)
    } else if is_word(w, "fork") {
        Some(Op::Fork)
    } else if is_word(w, "child") {
        Some(Op::Child)
    } else if is_word(w, "getpid") {
        Some(Op::GetPid)
    } else if is_word(w, "dbg") {
        Some(Op::Debug)
    } else if is_word(w, "print") {
        Some(Op::Print)
    } else if is_word(w, "printstr") {
        Some(Op::PrintStr)
    } else if is_word(w, "include") {
        Some(Op::Include)
    } else {
        None
    }
}

/// The words after the first, joined by single spaces.
fn join_arguments(ws: &Vec<Vec<i32>>) -> (r: Vec<i32>)
    requires
        ws@.len() >= 2,
    ensures
        r@ == join_words(words_view(ws@).drop_first()),
{
    let ghost args = words_view(ws@).drop_first();
    let mut r: Vec<i32> = Vec::new();
    let mut k: usize = 1;
    assert(args.subrange(0, 0) =~= Seq::<Seq<i32>>::empty());
    while k < ws.len()
        invariant
            1 <= k <= ws.len(),
            args == words_view(ws@).drop_first(),
            r@ == join_words(args.subrange(0, k - 1)),
        decreases ws.len() - k,
    {
        let ghost cur = args.subrange(0, k as int);
        assert(cur.drop_last() =~= args.subrange(0, k - 1));
        assert(cur.last() == ws@[k as int]@);
        if k > 1 {
            r.push(32);
        }
        let w = &ws[k];
        let mut j: usize = 0;
        let ghost base = r@;
        while j < w.len()
            invariant
                j <= w.len(),
                r@ =~= base + w@.subrange(0, j as int),
            decreases w.len() - j,
        {
            r.push(w[j]);
            j = j + 1;
        }
        assert(w@.subrange(0, w.len() as int) =~= w@);
        if k == 1 {
            assert(cur.len() == 1);
            assert(r@ =~= w@);
        } else {
            assert(r@ =~= join_words(args.subrange(0, k - 1)) + seq![32i32] + w@);
        }
        k = k + 1;
    }
    assert(args.subrange(0, ws.len() - 1) =~= args);
    r
}

/// `Const` pushes of the codes of `s`, last code first.
fn push_codes_exec(s: &Vec<i32>) -> (r: Vec<Instruction>)
    ensures
        r@ == push_codes(s@),
{
    let mut r: Vec<Instruction> = Vec::new();
    let mut k: usize = 0;
    while k < s.len()
        invariant
            k <= s.len(),
            r@ =~= push_codes(s@).subrange(0, k as int),
        decreases s.len() - k,
    {
        r.push((Op::Const, Some(s[s.len() - 1 - k])));
        k = k + 1;
    }
    assert(push_codes(s@).subrange(0, s.len() as int) =~= push_codes(s@));
    r
}

/// Appends `ins` to `code`.
fn append_all(code: &mut Vec<Instruction>, ins: &Vec<Instruction>)
    ensures
        final(code)@ == old(code)@ + ins@,
{
    let ghost start = code@;
    let mut k: usize = 0;
    while k < ins.len()
        invariant
            k <= ins.len(),
            code@ =~= start + ins@.subrange(0, k as int),
        decreases ins.len() - k,
    {
        code.push(ins[k]);
        k = k + 1;
    }
    assert(ins@.subrange(0, ins.len() as int) =~= ins@);
}

/// Reads one line of a program. Blank lines and lines whose first word
/// starts with `#` add nothing; `true` and `false` stand for `const 1` and
/// `const 0`; `pushstr` expands to pushes of its words' codes, joined by
/// single spaces, last code first. An `include` line adds nothing and gives
/// the name of the module to read in its place.
pub fn parse_opcode(line: &str, code: &mut Vec<Instruction>) -> (r: Result<Option<Vec<i32>>, ParseError>)
    ensures
        match parse_line(codes(line@)) {
            Ok((ins, inc)) => final(code)@ == old(code)@ + ins && match inc {
                Some(n) => r matches Ok(Some(v)) && v@ == n,
                None => r matches Ok(None),
            },
            Err(e) => r == Err::<Option<Vec<i32>>, ParseError>(e) && final(code)@ == old(code)@,
        },
{
    let cs = codes_of(line);
    let ws = split_words(&cs);
    let ghost wv = words_view(ws@);
    if ws.len() == 0 || ws[0][0] == 35 {
        assert(old(code)@ + Seq::<Instruction>::empty() =~= old(code)@);
        return Ok(None);
    }
    assert(ws@[0]@.len() > 0);
    let kw = lower_word(&ws[0]);
    let nargs = ws.len() - 1;
    let is_true = is_word(&kw, "true");
    if is_true || is_word(&kw, "false") {
        if nargs > 0 {
            return Err(ParseError::TooManyArguments);
        }
        let v: i32 = if is_true { 1 } else { 0 };
        code.push((Op::Const, Some(v)));
        assert(code@ =~= old(code)@ + seq![(Op::Const, Some(v))]);
        return Ok(None);
    }
    match keyword_exec(&kw) {
        None => Err(ParseError::UnknownOpcode),
        Some(op) => {
            if op == Op::PushStr {
                if nargs == 0 {
                    return Err(ParseError::MissingArgument);
                }
                let joined = join_arguments(&ws);
                let ins = push_codes_exec(&joined);
                append_all(code, &ins);
                Ok(None)
            } else if op == Op::Include {
                if nargs == 0 {
                    return Err(ParseError::MissingArgument);
                }
                if nargs > 1 {
                    return Err(ParseError::TooManyArguments);
                }
                assert(old(code)@ + Seq::<Instruction>::empty() =~= old(code)@);
                Ok(Some(copy_codes(&ws[1])))
            } else if nargs > 1 {
                Err(ParseError::TooManyArguments)
            } else if nargs == 1 {
                match parse_int_exec(&ws[1]) {
                    Some(v) => {
                        code.push((op, Some(v)));
                        assert(code@ =~= old(code)@ + seq![(op, Some(v))]);
                        Ok(None)
                    },
                    None => Err(ParseError::BadArgument),
                }
            } else if op == Op::Const || op == Op::Push {
                Err(ParseError::MissingArgument)
            } else {
                code.push((op, None));
                assert(code@ =~= old(code)@ + seq![(op, None::<i32>)]);
                Ok(None)
            }
        },
    }
}

} // verus!
