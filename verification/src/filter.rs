//! The filter expression: one comparison between a column reference and an
//! integer literal, gating which values of one column count toward its
//! statistics.

use vstd::prelude::*;
use vstd::string::StrSliceExecFns;

use crate::error::CsvColError;

verus! {

/// A comparison operator of a filter expression.
#[derive(Clone, Copy, Debug, PartialEq, Eq, Structural)]
pub enum Operator {
    Gt,
    Ge,
    Lt,
    Le,
    Ne,
    Eq,
}

/// One side of a filter expression: a column reference or an integer literal.
#[derive(Debug)]
pub enum Operand {
    Column(String),
    Number(i64),
}

/// Spec-level shape of an [`Operand`].
#[verifier::ext_equal]
pub enum OperandModel {
    Column(Seq<char>),
    Number(i64),
}

impl View for Operand {
    type V = OperandModel;

    open spec fn view(&self) -> OperandModel {
        match self {
            Operand::Column(name) => OperandModel::Column(name@),
            Operand::Number(n) => OperandModel::Number(*n),
        }
    }
}

impl Clone for Operand {
    fn clone(&self) -> (r: Self)
        ensures
            r == *self,
    {
        match self {
            Operand::Column(name) => Operand::Column(name.clone()),
            Operand::Number(n) => Operand::Number(*n),
        }
    }
}

/// A parsed filter expression: two operands around one operator, the literal
/// operand's position preserved.
#[derive(Debug)]
pub struct Expression {
    pub left: Operand,
    pub operator: Operator,
    pub right: Operand,
}

/// Spec-level shape of an [`Expression`].
#[verifier::ext_equal]
pub struct ExprModel {
    pub left: OperandModel,
    pub op: Operator,
    pub right: OperandModel,
}

impl View for Expression {
    type V = ExprModel;

    open spec fn view(&self) -> ExprModel {
        ExprModel { left: self.left@, op: self.operator, right: self.right@ }
    }
}

impl Clone for Expression {
    fn clone(&self) -> (r: Self)
        ensures
            r == *self,
    {
        Expression {
            left: self.left.clone(),
            operator: self.operator,
            right: self.right.clone(),
        }
    }
}

/// A well-formed expression compares exactly one column reference with
/// exactly one integer literal. The parser only builds such expressions.
pub open spec fn expr_wf(e: ExprModel) -> bool {
    ||| (e.left is Column && e.right is Number)
    ||| (e.left is Number && e.right is Column)
}

/// The comparison an operator stands for.
pub open spec fn spec_apply_op(op: Operator, l: i64, r: i64) -> bool {
    match op {
        Operator::Gt => l > r,
        Operator::Ge => l >= r,
        Operator::Lt => l < r,
        Operator::Le => l <= r,
        Operator::Ne => l != r,
        Operator::Eq => l == r,
    }
}

/// The value of a well-formed expression at `v`: `v` replaces the column
/// operand, the literal keeps its side.
pub open spec fn spec_eval(e: ExprModel, v: i64) -> bool
    recommends
        expr_wf(e),
{
    if e.left is Number {
        spec_apply_op(e.op, e.left->Number_0, v)
    } else {
        spec_apply_op(e.op, v, e.right->Number_0)
    }
}

/// Whether the expression mentions the column called `name`.
pub open spec fn spec_mentions(e: ExprModel, name: Seq<char>) -> bool {
    ||| (e.left matches OperandModel::Column(c) && c == name)
    ||| (e.right matches OperandModel::Column(c) && c == name)
}

/// Character-wise string equality.
pub(crate) fn str_eq(a: &str, b: &str) -> (r: bool)
    ensures
        r == (a@ == b@),
{
    let na = a.unicode_len();
    let nb = b.unicode_len();
    if na != nb {
        proof {
            assert(a@ != b@);
        }
        return false;
    }
    let mut i: usize = 0;
    while i < na
        invariant
            0 <= i <= na,
            na == a@.len() == b@.len(),
            forall|k: int| 0 <= k < i ==> a@[k] == b@[k],
        decreases na - i,
    {
        if a.get_char(i) != b.get_char(i) {
            return false;
        }
        i = i + 1;
    }
    proof {
        assert(a@ =~= b@);
    }
    true
}

impl Expression {
    /// True iff one of the operands refers to the column called `column_name`.
    pub fn check_by_name(&self, column_name: &str) -> (r: bool)
        ensures
            r == spec_mentions(self@, column_name@),
    {
        let left_hit = match &self.left {
            Operand::Column(name) => str_eq(name.as_str(), column_name),
            Operand::Number(_) => false,
        };
        if left_hit {
            true
        } else {
            match &self.right {
                Operand::Column(name) => str_eq(name.as_str(), column_name),
                Operand::Number(_) => false,
            }
        }
    }

    /// Applies the comparison to `value`, substituting it for the column
    /// operand. The expression must be well formed: the parser guarantees
    /// that, and evaluation of any other expression is a caller error.
    pub fn unchacked_validate(&self, value: &i64) -> (r: bool)
        requires
            expr_wf(self@),
        ensures
            r == spec_eval(self@, *value),
    {
        let (l, r): (i64, i64) = match (&self.left, &self.right) {
            (Operand::Number(n), _) => (*n, *value),
            (_, Operand::Number(n)) => (*value, *n),
            _ => {
                proof {
                    assert(false);
                }
                (0, 0)
            },
        };
        match self.operator {
            Operator::Gt => l > r,
            Operator::Ge => l >= r,
            Operator::Lt => l < r,
            Operator::Le => l <= r,
            Operator::Ne => l != r,
            Operator::Eq => l == r,
        }
    }
}

/// An ASCII whitespace character.
pub open spec fn spec_is_space_char(c: char) -> bool {
    c == ' ' || c == '\t' || c == '\n' || (c as u32) == 12 || c == '\r'
}

fn is_space_char(c: char) -> (r: bool)
    ensures
        r == spec_is_space_char(c),
{
    c == ' ' || c == '\t' || c == '\n' || (c as u32) == 12 || c == '\r'
}

/// A token with its leading and trailing ASCII whitespace removed.
pub open spec fn spec_trim_chars(s: Seq<char>) -> Seq<char>
    decreases s.len(),
{
    if s.len() > 0 && spec_is_space_char(s.first()) {
        spec_trim_chars(s.drop_first())
    } else if s.len() > 0 && spec_is_space_char(s.last()) {
        spec_trim_chars(s.drop_last())
    } else {
        s
    }
}

/// An ASCII decimal digit.
pub open spec fn spec_is_digit(c: char) -> bool {
    48 <= (c as u32) <= 57
}

/// Every character is an ASCII decimal digit.
pub open spec fn all_digits(ds: Seq<char>) -> bool {
    forall|k: int| 0 <= k < ds.len() ==> spec_is_digit(#[trigger] ds[k])
}

/// The unbounded value of a digit string.
pub open spec fn digits_val(ds: Seq<char>) -> int
    decreases ds.len(),
{
    if ds.len() == 0 {
        0
    } else {
        10 * digits_val(ds.drop_last()) + ((ds.last() as u32) - 48)
    }
}

/// What `str::parse::<i64>` accepts: an optional sign, then one or more
/// ASCII decimal digits, the whole token, with the value in the signed
/// 64-bit range.
pub open spec fn spec_parse_i64(t: Seq<char>) -> Option<i64> {
    if t.len() == 0 {
        None
    } else {
        let has_sign = t[0] == '-' || t[0] == '+';
        let neg = t[0] == '-';
        let ds = if has_sign {
            t.subrange(1, t.len() as int)
        } else {
            t
        };
        if ds.len() > 0 && all_digits(ds) {
            let m = digits_val(ds);
            if neg && m <= 9223372036854775808 {
                Some((-m) as i64)
            } else if !neg && m <= 9223372036854775807 {
                Some(m as i64)
            } else {
                None
            }
        } else {
            None
        }
    }
}

proof fn lemma_digits_val_nonneg(ds: Seq<char>)
    requires
        all_digits(ds),
    ensures
        digits_val(ds) >= 0,
    decreases ds.len(),
{
    if ds.len() > 0 {
        assert(forall|k: int|
            0 <= k < ds.drop_last().len() ==> #[trigger] ds.drop_last()[k] == ds[k]);
        lemma_digits_val_nonneg(ds.drop_last());
    }
}

/// Appending digits never shrinks the value of a digit string.
proof fn lemma_digits_val_prefix(ds: Seq<char>, k: int)
    requires
        all_digits(ds),
        0 <= k <= ds.len(),
    ensures
        digits_val(ds) >= digits_val(ds.subrange(0, k)),
    decreases ds.len() - k,
{
    if k == ds.len() {
        assert(ds.subrange(0, k) =~= ds);
    } else {
        let p = ds.subrange(0, k);
        let q = ds.subrange(0, k + 1);
        assert(q.drop_last() =~= p);
        assert(forall|m: int| 0 <= m < p.len() ==> #[trigger] p[m] == ds[m]);
        lemma_digits_val_nonneg(p);
        assert(digits_val(q) == 10 * digits_val(p) + ((ds[k] as u32) - 48));
        assert(digits_val(q) >= digits_val(p));
        lemma_digits_val_prefix(ds, k + 1);
    }
}

/// Parses the character range `[from, to)` of `s` as a signed 64-bit
/// integer, exactly as [`spec_parse_i64`] describes.
#[verifier::loop_isolation(false)]
fn parse_i64_range(s: &str, from: usize, to: usize) -> (r: Option<i64>)
    requires
        from <= to <= s@.len(),
    ensures
        r == spec_parse_i64(s@.subrange(from as int, to as int)),
{
    let ghost t = s@.subrange(from as int, to as int);
    if from == to {
        return None;
    }
    let c0 = s.get_char(from);
    let neg = c0 == '-';
    let has_sign = c0 == '-' || c0 == '+';
    let dstart: usize = if has_sign {
        from + 1
    } else {
        from
    };
    let ghost ds = s@.subrange(dstart as int, to as int);
    proof {
        assert(t[0] == c0);
        if has_sign {
            assert(ds =~= t.subrange(1, t.len() as int));
        } else {
            assert(ds =~= t);
        }
    }
    if dstart == to {
        return None;
    }
    let mut i: usize = dstart;
    let mut acc: u128 = 0;
    while i < to
        invariant
            dstart <= i <= to <= s@.len(),
            ds == s@.subrange(dstart as int, to as int),
            ds.len() == to - dstart,
            forall|k: int| 0 <= k < i - dstart ==> spec_is_digit(#[trigger] ds[k]),
            acc == digits_val(ds.subrange(0, i - dstart)),
            acc <= 9223372036854775808,
        decreases to - i,
    {
        let c = s.get_char(i);
        let u = c as u32;
        proof {
            assert(ds[i - dstart] == s@[i as int]);
        }
        if u < 48 || u > 57 {
            proof {
                assert(!spec_is_digit(ds[i - dstart]));
                assert(!all_digits(ds));
            }
            return None;
        }
        proof {
            assert(ds.subrange(0, i + 1 - dstart).drop_last() =~= ds.subrange(0, i - dstart));
            assert(ds.subrange(0, i + 1 - dstart).last() == ds[i - dstart]);
        }
        acc = acc * 10 + ((u - 48) as u128);
        i = i + 1;
        if acc > 9223372036854775808 {
            proof {
                if all_digits(ds) {
                    lemma_digits_val_prefix(ds, i - dstart);
                }
            }
            return None;
        }
    }
    proof {
        assert(ds.subrange(0, ds.len() as int) =~= ds);
        assert(all_digits(ds));
        assert(acc == digits_val(ds));
    }
    if neg {
        let signed: i128 = -(acc as i128);
        Some(signed as i64)
    } else {
        if acc <= 9223372036854775807 {
            Some(acc as i64)
        } else {
            None
        }
    }
}

/// What an operator token means once trimmed: one of the six comparison
/// symbols, or nothing.
pub open spec fn spec_op_of(t: Seq<char>) -> Option<Operator> {
    let u = spec_trim_chars(t);
    if u.len() == 1 && u[0] == '<' {
        Some(Operator::Lt)
    } else if u.len() == 1 && u[0] == '>' {
        Some(Operator::Gt)
    } else if u.len() == 2 && u[0] == '>' && u[1] == '=' {
        Some(Operator::Ge)
    } else if u.len() == 2 && u[0] == '<' && u[1] == '=' {
        Some(Operator::Le)
    } else if u.len() == 2 && u[0] == '=' && u[1] == '=' {
        Some(Operator::Eq)
    } else if u.len() == 2 && u[0] == '!' && u[1] == '=' {
        Some(Operator::Ne)
    } else {
        None
    }
}

impl Operator {
    /// Parses a trimmed operator token.
    pub fn try_parse(value: &str) -> (r: Result<Operator, CsvColError>)
        ensures
            match spec_op_of(value@) {
                Some(op) => r == Ok::<Operator, CsvColError>(op),
                None => r matches Err(CsvColError::Filter(_)),
            },
    {
        let n = value.unicode_len();
        let mut i: usize = 0;
        let mut j: usize = n;
        proof {
            assert(value@.subrange(0, value@.len() as int) =~= value@);
        }
        while i < j && is_space_char(value.get_char(i))
            invariant
                0 <= i <= j <= value@.len(),
                j == value@.len(),
                spec_trim_chars(value@) == spec_trim_chars(
                    value@.subrange(i as int, j as int),
                ),
            decreases j - i,
        {
            proof {
                assert(value@.subrange(i as int, j as int).drop_first() =~= value@.subrange(
                    i as int + 1,
                    j as int,
                ));
            }
            i = i + 1;
        }
        while i < j && is_space_char(value.get_char(j - 1))
            invariant
                0 <= i <= j <= value@.len(),
                spec_trim_chars(value@) == spec_trim_chars(
                    value@.subrange(i as int, j as int),
                ),
                i < j ==> !spec_is_space_char(value@[i as int]),
            decreases j,
        {
            proof {
                assert(value@.subrange(i as int, j as int).drop_last() =~= value@.subrange(
                    i as int,
                    j as int - 1,
                ));
            }
            j = j - 1;
        }
        proof {
            let u = value@.subrange(i as int, j as int);
            assert(u.len() == 0 || !spec_is_space_char(u.first()));
            assert(u.len() == 0 || !spec_is_space_char(u.last()));
            assert(spec_trim_chars(value@) == u);
        }
        if j - i == 1 {
            let c = value.get_char(i);
            if c == '<' {
                Ok(Operator::Lt)
            } else if c == '>' {
                Ok(Operator::Gt)
            } else {
                Err(CsvColError::Filter("bad operator".to_owned()))
            }
        } else if j - i == 2 {
            let c0 = value.get_char(i);
            let c1 = value.get_char(i + 1);
            if c0 == '>' && c1 == '=' {
                Ok(Operator::Ge)
            } else if c0 == '<' && c1 == '=' {
                Ok(Operator::Le)
            } else if c0 == '=' && c1 == '=' {
                Ok(Operator::Eq)
            } else if c0 == '!' && c1 == '=' {
                Ok(Operator::Ne)
            } else {
                Err(CsvColError::Filter("bad operator".to_owned()))
            }
        } else {
            Err(CsvColError::Filter("bad operator".to_owned()))
        }
    }
}

/// The filter string splits into exactly three tokens around two spaces, at
/// positions `p1 < p2`.
pub open spec fn valid_split(s: Seq<char>, p1: int, p2: int) -> bool {
    &&& 0 <= p1 < p2 < s.len()
    &&& s[p1] == ' '
    &&& s[p2] == ' '
    &&& forall|k: int| 0 <= k < s.len() && k != p1 && k != p2 ==> #[trigger] s[k] != ' '
}

/// What a filter string parses to: three space-separated tokens, the middle
/// one an operator, and exactly one of the outer ones an integer literal;
/// the other outer token names the filtered column, keeping its side.
pub open spec fn spec_parse_expr(s: Seq<char>) -> Option<ExprModel> {
    if exists|p1: int, p2: int| valid_split(s, p1, p2) {
        let (p1, p2) = choose|p1: int, p2: int| valid_split(s, p1, p2);
        let t0 = s.subrange(0, p1);
        let t1 = s.subrange(p1 + 1, p2);
        let t2 = s.subrange(p2 + 1, s.len() as int);
        match spec_op_of(t1) {
            None => None,
            Some(op) => if spec_parse_i64(t0) is Some {
                Some(
                    ExprModel {
                        left: OperandModel::Number(spec_parse_i64(t0)->0),
                        op,
                        right: OperandModel::Column(t2),
                    },
                )
            } else if spec_parse_i64(t2) is Some {
                Some(
                    ExprModel {
                        left: OperandModel::Column(t0),
                        op,
                        right: OperandModel::Number(spec_parse_i64(t2)->0),
                    },
                )
            } else {
                None
            },
        }
    } else {
        None
    }
}

/// Two valid splits of the same string coincide.
proof fn lemma_split_unique(s: Seq<char>, p1: int, p2: int, q1: int, q2: int)
    requires
        valid_split(s, p1, p2),
        valid_split(s, q1, q2),
    ensures
        q1 == p1 && q2 == p2,
{
    assert(q1 == p1 || q1 == p2);
    assert(q2 == p1 || q2 == p2);
}

impl Expression {
    /// Parses a filter string of the shape `"operand operator operand"`,
    /// with single spaces between the three tokens. Exactly the strings
    /// [`spec_parse_expr`] accepts yield an expression, always well formed;
    /// every other string is rejected.
    pub fn from_str(value: &str) -> (r: Result<Expression, CsvColError>)
        ensures
            match spec_parse_expr(value@) {
                Some(e) => r matches Ok(ex) && ex@ == e && expr_wf(e),
                None => r matches Err(CsvColError::Filter(_)),
            },
    {
        let n = value.unicode_len();
        let mut i: usize = 0;
        let mut count: usize = 0;
        let mut p1: usize = 0;
        let mut p2: usize = 0;
        let mut p3: usize = 0;
        while i < n
            invariant
                0 <= i <= n == value@.len(),
                count <= i,
                count >= 1 ==> p1 < i && value@[p1 as int] == ' ',
                count >= 2 ==> p1 < p2 < i && value@[p2 as int] == ' ',
                count >= 3 ==> p2 < p3 < i && value@[p3 as int] == ' ',
                forall|k: int|
                    0 <= k < i && #[trigger] value@[k] == ' ' ==> ((count >= 1 && k == p1) || (
                    count >= 2 && k == p2) || count >= 3),
                count == 0 ==> forall|k: int| 0 <= k < i ==> #[trigger] value@[k] != ' ',
            decreases n - i,
        {
            let c = value.get_char(i);
            if c == ' ' {
                if count == 0 {
                    p1 = i;
                } else if count == 1 {
                    p2 = i;
                } else if count == 2 {
                    p3 = i;
                }
                count = count + 1;
            }
            i = i + 1;
        }
        if count != 2 {
            proof {
                if exists|q1: int, q2: int| valid_split(value@, q1, q2) {
                    let (q1, q2) = choose|q1: int, q2: int| valid_split(value@, q1, q2);
                    assert(value@[q1] == ' ');
                    assert(value@[q2] == ' ');
                    if count == 0 {
                        assert(false);
                    } else if count == 1 {
                        assert(q1 == p1 && q2 == p1);
                        assert(false);
                    } else {
                        assert(count >= 3);
                        assert(value@[p1 as int] == ' ');
                        assert(value@[p2 as int] == ' ');
                        assert(value@[p3 as int] == ' ');
                        assert(p1 == q1 || p1 == q2);
                        assert(p2 == q1 || p2 == q2);
                        assert(p3 == q1 || p3 == q2);
                        assert(false);
                    }
                }
            }
            return Err(
                CsvColError::Filter("Filter should have 2 operands and 1 operator".to_owned()),
            );
        }
        proof {
            assert(valid_split(value@, p1 as int, p2 as int));
            let (q1, q2) = choose|q1: int, q2: int| valid_split(value@, q1, q2);
            lemma_split_unique(value@, q1, q2, p1 as int, p2 as int);
        }
        let operator = match Operator::try_parse(value.substring_char(p1 + 1, p2)) {
            Ok(op) => op,
            Err(e) => {
                return Err(e);
            },
        };
        if let Some(num) = parse_i64_range(value, 0, p1) {
            let name = value.substring_char(p2 + 1, n).to_owned();
            Ok(
                Expression {
                    left: Operand::Number(num),
                    operator,
                    right: Operand::Column(name),
                },
            )
        } else if let Some(num) = parse_i64_range(value, p2 + 1, n) {
            let name = value.substring_char(0, p1).to_owned();
            Ok(
                Expression {
                    left: Operand::Column(name),
                    operator,
                    right: Operand::Number(num),
                },
            )
        } else {
            Err(CsvColError::Filter("Filter should have 2 operands and 1 operator".to_owned()))
        }
    }
}

} // verus!
