//! Writing plans back as HOP lines.
use vstd::prelude::*;
use vstd::string::StringExecFns;
use crate::math::{Id, Math, children, dml_name, dml_op};
use crate::text::{digits_val, digit_val, parse_u32_spec, all_digits, is_digit};

verus! {

/// The character of the decimal digit `d`.
pub open spec fn digit_char(d: nat) -> char {
    if d == 0 {
        '0'
    } else if d == 1 {
        '1'
    } else if d == 2 {
        '2'
    } else if d == 3 {
        '3'
    } else if d == 4 {
        '4'
    } else if d == 5 {
        '5'
    } else if d == 6 {
        '6'
    } else if d == 7 {
        '7'
    } else if d == 8 {
        '8'
    } else {
        '9'
    }
}

/// The decimal digits of `n`, without leading zeros (`"0"` for zero).
pub open spec fn decimal(n: nat) -> Seq<char>
    decreases n,
{
    if n < 10 {
        seq![digit_char(n)]
    } else {
        decimal(n / 10).push(digit_char(n % 10))
    }
}

/// The decimal text of the signed number `n`.
pub open spec fn signed_decimal(n: int) -> Seq<char> {
    if n < 0 {
        seq!['-'] + decimal((-n) as nat)
    } else {
        decimal(n as nat)
    }
}

fn digit_str(d: u64) -> (r: &'static str)
    requires
        d < 10,
    ensures
        r@ == seq![digit_char(d as nat)],
{
    proof {
        reveal_strlit("0");
        reveal_strlit("1");
        reveal_strlit("2");
        reveal_strlit("3");
        reveal_strlit("4");
        reveal_strlit("5");
        reveal_strlit("6");
        reveal_strlit("7");
        reveal_strlit("8");
        reveal_strlit("9");
    }
    if d == 0 {
        "0"
    } else if d == 1 {
        "1"
    } else if d == 2 {
        "2"
    } else if d == 3 {
        "3"
    } else if d == 4 {
        "4"
    } else if d == 5 {
        "5"
    } else if d == 6 {
        "6"
    } else if d == 7 {
        "7"
    } else if d == 8 {
        "8"
    } else {
        "9"
    }
}

/// Appends the decimal digits of `n` to `s`.
pub fn push_decimal(s: &mut String, n: u64)
    ensures
        final(s)@ == old(s)@ + decimal(n as nat),
    decreases n,
{
    if n >= 10 {
        push_decimal(s, n / 10);
    }
    s.append(digit_str(n % 10));
    proof {
        if n >= 10 {
            assert(decimal(n as nat) == decimal((n / 10) as nat).push(digit_char((n % 10) as nat)));
        }
    }
}

/// Appends the decimal text of `n` to `s`.
pub fn push_signed(s: &mut String, n: i64)
    requires
        n > i64::MIN,
    ensures
        final(s)@ == old(s)@ + signed_decimal(n as int),
{
    proof {
        reveal_strlit("-");
    }
    if n < 0 {
        s.append("-");
        push_decimal(s, (-n) as u64);
        proof {
            assert(old(s)@ + seq!['-'] + decimal((-n) as nat) =~= old(s)@ + (seq!['-'] + decimal(
                (-n) as nat,
            )));
        }
    } else {
        push_decimal(s, n as u64);
    }
}

proof fn lemma_digit_char(d: nat)
    requires
        d < 10,
    ensures
        is_digit(digit_char(d)),
        (digit_char(d) as int) - ('0' as int) == d,
{
}

/// The decimal text of a number is all digits.
pub proof fn lemma_decimal_digits(n: nat)
    ensures
        all_digits(decimal(n)),
        digits_val(decimal(n)) == n,
        decimal(n).len() >= 1,
    decreases n,
{
    if n < 10 {
        lemma_digit_char(n);
        let d = decimal(n);
        assert(d.drop_last() =~= Seq::<char>::empty());
        assert(d.last() == digit_char(n));
        assert(digits_val(d) == digits_val(d.drop_last()) * 10 + digit_val(d.last()));
        assert(digits_val(Seq::<char>::empty()) == 0);
    } else {
        lemma_decimal_digits(n / 10);
        lemma_digit_char(n % 10);
        let d = decimal(n);
        assert(d.drop_last() =~= decimal(n / 10));
        assert(d.last() == digit_char(n % 10));
        assert(n == (n / 10) * 10 + n % 10);
        assert(digits_val(d) == digits_val(decimal(n / 10)) * 10 + digit_val(d.last()));
        assert forall|i: int| 0 <= i < d.len() implies is_digit(#[trigger] d[i]) by {
            if i < d.len() - 1 {
                assert(d[i] == decimal(n / 10)[i]);
            }
        }
    }
}

/// Writing a number in decimal and reading it back as a `u32` gives the number.
pub proof fn decimal_roundtrip(n: u32)
    ensures
        parse_u32_spec(decimal(n as nat)) == Some(n),
{
    lemma_decimal_digits(n as nat);
    let d = decimal(n as nat);
    lemma_digit_char(0);
    assert(d[0] != '+') by {
        assert(is_digit(d[0]));
    }
}

/// The text of a node, as the e-graph language writes it: the operator's keyword,
/// or the value of a number, name or write.
pub open spec fn op_text(n: Math) -> Seq<char> {
    match n {
        Math::LMat(_) => "lmat"@,
        Math::LAdd(_) => "l+"@,
        Math::LMin(_) => "l-"@,
        Math::LMul(_) => "l*"@,
        Math::MMul(_) => "m*"@,
        Math::LTrs(_) => "trans"@,
        Math::Srow(_) => "srow"@,
        Math::Scol(_) => "scol"@,
        Math::Sall(_) => "sall"@,
        Math::Bind(_) => "b+"@,
        Math::Ubnd(_) => "b-"@,
        Math::LLit(_) => "llit"@,
        Math::Udf(_) => "udf"@,
        Math::Add(_) => "+"@,
        Math::Mul(_) => "*"@,
        Math::Agg(_) => "sum"@,
        Math::RMMul(_) => "rm*"@,
        Math::Lit(_) => "lit"@,
        Math::Var(_) => "var"@,
        Math::Mat(_) => "mat"@,
        Math::Dim(_) => "dim"@,
        Math::Nnz(_) => "nnz"@,
        Math::Sub(_) => "subst"@,
        Math::Ind(_) => "ind"@,
        Math::Num(v) => signed_decimal(v as int),
        Math::Str(s) => s@,
        Math::TWrite(s) => s@,
    }
}

/// Appends the text of node `n` to `s` (see [`op_text`]).
pub fn push_op_text(s: &mut String, n: &Math)
    ensures
        final(s)@ == old(s)@ + op_text(*n),
{
    match n {
        Math::LMat(_) => s.append("lmat"),
        Math::LAdd(_) => s.append("l+"),
        Math::LMin(_) => s.append("l-"),
        Math::LMul(_) => s.append("l*"),
        Math::MMul(_) => s.append("m*"),
        Math::LTrs(_) => s.append("trans"),
        Math::Srow(_) => s.append("srow"),
        Math::Scol(_) => s.append("scol"),
        Math::Sall(_) => s.append("sall"),
        Math::Bind(_) => s.append("b+"),
        Math::Ubnd(_) => s.append("b-"),
        Math::LLit(_) => s.append("llit"),
        Math::Udf(_) => s.append("udf"),
        Math::Add(_) => s.append("+"),
        Math::Mul(_) => s.append("*"),
        Math::Agg(_) => s.append("sum"),
        Math::RMMul(_) => s.append("rm*"),
        Math::Lit(_) => s.append("lit"),
        Math::Var(_) => s.append("var"),
        Math::Mat(_) => s.append("mat"),
        Math::Dim(_) => s.append("dim"),
        Math::Nnz(_) => s.append("nnz"),
        Math::Sub(_) => s.append("subst"),
        Math::Ind(_) => s.append("ind"),
        Math::Num(v) => push_signed(s, *v as i64),
        Math::Str(t) => s.append(t.as_str()),
        Math::TWrite(t) => s.append(t.as_str()),
    }
}

/// `ids` written as HOP inputs: each in decimal followed by a comma.
pub open spec fn id_list(ids: Seq<Id>) -> Seq<char>
    decreases ids.len(),
{
    if ids.len() == 0 {
        Seq::empty()
    } else {
        id_list(ids.drop_last()) + decimal(ids.last() as nat) + seq![',']
    }
}

fn push_id_list(s: &mut String, ids: &Vec<Id>, from: usize, to: usize)
    requires
        from <= to <= ids.len(),
    ensures
        final(s)@ == old(s)@ + id_list(ids@.subrange(from as int, to as int)),
{
    proof {
        reveal_strlit(",");
        assert(ids@.subrange(from as int, from as int) =~= Seq::<Id>::empty());
        assert(old(s)@ + Seq::<char>::empty() =~= old(s)@);
    }
    let mut i = from;
    while i < to
        invariant
            from <= i <= to <= ids.len(),
            s@ == old(s)@ + id_list(ids@.subrange(from as int, i as int)),
        decreases to - i,
    {
        let ghost before = s@;
        push_decimal(s, ids[i] as u64);
        let ghost mid = s@;
        s.append(",");
        proof {
            reveal_strlit(",");
            assert(mid == before + decimal(ids@[i as int] as nat));
            assert(s@ == mid + seq![',']);
            let a = ids@.subrange(from as int, i as int);
            let b = ids@.subrange(from as int, i + 1);
            assert(b.drop_last() =~= a);
            assert(b.last() == ids@[i as int]);
            assert(old(s)@ + id_list(a) + decimal(ids@[i as int] as nat) + seq![','] =~= old(s)@
                + id_list(b));
        }
        i += 1;
    }
}

/// The operands of a function call that its HOP line lists: for `rix` the five after
/// the name, for `lix` the six after the name, else all after the name.
pub open spec fn udf_listed(op: Seq<char>, args: Seq<Id>) -> Seq<Id> {
    if op == "rix"@ {
        args.subrange(1, 6)
    } else if op == "lix"@ {
        args.subrange(1, 7)
    } else {
        args.subrange(1, args.len() as int)
    }
}

/// Whether [`dag_line`] can write node `n`: a function call's first operand must be a
/// name, and it must have the operands that its line lists.
pub open spec fn dag_line_ok(n: Math, first: Math) -> bool {
    match n {
        Math::Udf(args) => first is Str && match first {
            Math::Str(op) => if op@ == "rix"@ {
                args.len() >= 6
            } else if op@ == "lix"@ {
                args.len() >= 7
            } else {
                args.len() >= 1
            },
            _ => false,
        },
        _ => true,
    }
}

/// The HOP line for node `n` of e-class `id`, where `first` is the first node of the
/// class that `n`'s first operand names (the function name of a call, the matrix name
/// of a read, the value of a literal); nothing for numbers and names.
pub open spec fn dag_line_spec(id: Id, n: Math, first: Math) -> Option<Seq<char>> {
    let head = "0,0;"@ + decimal(id as nat) + ";"@;
    match n {
        Math::Str(_) | Math::Num(_) => None,
        Math::Udf(args) => Some(
            head + op_text(first) + ";"@ + id_list(udf_listed(op_text(first), args@))
                + ";;M;D;;;;;"@,
        ),
        Math::LMat(_) => Some(head + "TRead "@ + op_text(first) + ";;;M;D;;;;;"@),
        Math::LLit(_) => Some(head + "LiteralOp "@ + op_text(first) + ";;;M;D;;;;;"@),
        Math::TWrite(s) => Some(head + "TWrite "@ + s@ + ";;;M;D;;;;;"@),
        Math::Var(_) => Some("var"@),
        _ => Some(head + dml_name(n) + ";"@ + id_list(children(n)) + ";;M;D;;;;;"@),
    }
}

/// Whether [`dag_line`] can write node `n` (see [`dag_line_ok`]).
pub fn dag_line_writable(n: &Math, first: &Math) -> (r: bool)
    ensures
        r == dag_line_ok(*n, *first),
{
    match n {
        Math::Udf(args) => match first {
            Math::Str(op) => {
                if crate::text::eq_lit(op.as_str(), "rix") {
                    args.len() >= 6
                } else if crate::text::eq_lit(op.as_str(), "lix") {
                    args.len() >= 7
                } else {
                    args.len() >= 1
                }
            },
            _ => false,
        },
        _ => true,
    }
}

/// The HOP line for node `n` of e-class `id` (see [`dag_line_spec`]).
pub fn dag_line(id: Id, n: &Math, first: &Math) -> (r: Option<String>)
    requires
        dag_line_ok(*n, *first),
    ensures
        match r {
            Some(t) => dag_line_spec(id, *n, *first) == Some(t@),
            None => dag_line_spec(id, *n, *first) is None,
        },
{
    let mut s = String::new();
    match n {
        Math::Str(_) | Math::Num(_) => {
            return None;
        },
        Math::Var(_) => {
            s.append("var");
            return Some(s);
        },
        _ => {},
    }
    s.append("0,0;");
    push_decimal(&mut s, id as u64);
    s.append(";");
    let ghost head = s@;
    match n {
        Math::Udf(args) => {
            push_op_text(&mut s, first);
            s.append(";");
            let op = match first {
                Math::Str(op) => op,
                _ => vstd::pervasive::unreached(),
            };
            if crate::text::eq_lit(op.as_str(), "rix") {
                push_id_list(&mut s, args, 1, 6);
            } else if crate::text::eq_lit(op.as_str(), "lix") {
                push_id_list(&mut s, args, 1, 7);
            } else {
                push_id_list(&mut s, args, 1, args.len());
            }
            s.append(";;M;D;;;;;");
        },
        Math::LMat(_) => {
            s.append("TRead ");
            push_op_text(&mut s, first);
            s.append(";;;M;D;;;;;");
        },
        Math::LLit(_) => {
            s.append("LiteralOp ");
            push_op_text(&mut s, first);
            s.append(";;;M;D;;;;;");
        },
        Math::TWrite(t) => {
            s.append("TWrite ");
            s.append(t.as_str());
            s.append(";;;M;D;;;;;");
        },
        _ => {
            s.append(dml_op(n));
            s.append(";");
            let c = crate::math::node_children(n);
            push_id_list(&mut s, &c, 0, c.len());
            proof {
                assert(c@.subrange(0, c@.len() as int) =~= c@);
            }
            s.append(";;M;D;;;;;");
        },
    }
    Some(s)
}

} // verus!
