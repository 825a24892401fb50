use warp::dag::{load_dag, DagStep};
use warp::hop::{parse_hop, parse_op, try_parse_hop, try_parse_op, HopOp};
use warp::math::Math;
use warp::show::dag_line;
use warp::text::{chars_of, is_float_text, line_ranges, parse_i32_at, parse_u32_at, split_ranges};

static HOP: &str = "9,29;82;b(*);83,84;0,0,-1,-1,-1;S;D;0,0,0,0;;CP;";

#[test]
fn phop() {
    let hop = parse_hop(HOP);
    println!("{:?}", hop);
}

#[test]
fn phop_fields() {
    let hop = parse_hop(HOP);
    assert_eq!(hop.id(), 82);
    assert!(matches!(hop.op(), HopOp::Op(s) if s == "b(*)"));
    assert_eq!(hop.children(), &vec![83, 84]);
    assert_eq!(hop.row(), 1);
    assert_eq!(hop.col(), 1);
    assert_eq!(hop.nnz(), Some(1));
}

#[test]
fn parse_literal_line() {
    let hop = parse_hop("29,29;80;LiteralOp 6.14;;0,0,-1,-1,-1;S;D;0,0,0,0;;;");
    assert_eq!(hop.id(), 80);
    assert!(matches!(hop.op(), HopOp::Num(s) if s == "6.14"));
    assert!(hop.children().is_empty());
    assert_eq!((hop.row(), hop.col(), hop.nnz()), (1, 1, Some(1)));
}

#[test]
fn parse_read_line() {
    let hop = parse_hop("29,29;86;TRead B;;500000,10,1000,1000,5000000;M;D;0,0,38,-;;;");
    assert_eq!(hop.id(), 86);
    assert!(matches!(hop.op(), HopOp::Var(s) if s == "B"));
    assert_eq!((hop.row(), hop.col(), hop.nnz()), (500000, 10, Some(5000000)));
}

#[test]
fn parse_unknown_nnz_is_cells() {
    let hop = parse_hop("0,0;5;u(exp);3;4,6,0,0,-1;M;D;;;;;");
    assert!(matches!(hop.op(), HopOp::Udf(s) if s == "u(exp)"));
    assert_eq!(hop.children(), &vec![3]);
    assert_eq!((hop.row(), hop.col(), hop.nnz()), (4, 6, Some(24)));
}

#[test]
fn parse_skips_bad_children() {
    let hop = parse_hop("0,0;7;b(+);3,x,,4;2,2,0,0,7;M;D;;;;;");
    assert_eq!(hop.children(), &vec![3, 4]);
    assert_eq!(hop.nnz(), Some(7));
}

#[test]
fn parse_missing_meta_is_one() {
    let hop = parse_hop("0,0;7;r(t);3;,abc,0,0,;M;D;;;;;");
    assert_eq!((hop.row(), hop.col(), hop.nnz()), (1, 1, None));
}

#[test]
fn parse_rejects_bad_lines() {
    assert!(try_parse_hop("garbage").is_none());
    assert!(try_parse_hop("0,0;x;b(*);1,2;0,0,0,0,0").is_none());
    assert!(try_parse_hop("0,0;1;b(*);1,2;0,0,0,0").is_none());
    assert!(try_parse_hop("0,0;1;LiteralOp;;0,0,0,0,0").is_none());
    assert!(try_parse_hop("0,0;1;b(*);1,2;0,0,0,0,0").is_some());
}

#[test]
fn parse_ops() {
    assert!(matches!(parse_op("ua(+RC)"), HopOp::Op(s) if s == "ua(+RC)"));
    assert!(matches!(parse_op("TWrite out"), HopOp::Write(s) if s == "out"));
    assert!(matches!(parse_op("TRead  a b"), HopOp::Var(s) if s == "a"));
    assert!(matches!(parse_op("b(/)"), HopOp::Udf(s) if s == "b(/)"));
    assert!(matches!(parse_op("LiteralOp -2"), HopOp::Num(s) if s == "-2"));
    assert!(try_parse_op("TRead").is_none());
    assert!(try_parse_op("TRead x").is_some());
}

#[test]
fn decimal_edges() {
    let v = chars_of("+5;4294967295;4294967296;;-2147483648;2147483648;-;007");
    let f = split_ranges(&v, ';');
    assert_eq!(f.len(), 8);
    assert_eq!(parse_u32_at(&v, f[0].0, f[0].1), Some(5));
    assert_eq!(parse_u32_at(&v, f[1].0, f[1].1), Some(4294967295));
    assert_eq!(parse_u32_at(&v, f[2].0, f[2].1), None);
    assert_eq!(parse_u32_at(&v, f[3].0, f[3].1), None);
    assert_eq!(parse_i32_at(&v, f[4].0, f[4].1), Some(-2147483648));
    assert_eq!(parse_i32_at(&v, f[5].0, f[5].1), None);
    assert_eq!(parse_i32_at(&v, f[6].0, f[6].1), None);
    assert_eq!(parse_u32_at(&v, f[7].0, f[7].1), Some(7));
    assert_eq!(parse_u32_at(&v, f[4].0, f[4].1), None);
}

#[test]
fn lines_split() {
    let v = chars_of("a\r\nb\n\nc");
    let r = line_ranges(&v);
    let got: Vec<String> = r.iter().map(|(a, b)| v[*a..*b].iter().collect()).collect();
    assert_eq!(got, vec!["a", "b", "", "c"]);
    assert_eq!(line_ranges(&chars_of("x\n")).len(), 1);
    assert_eq!(line_ranges(&chars_of("")).len(), 0);
}

const PLAN: &str = "0,0;1;TRead A;;10,20,0,0,200;M;D;;;;;
0,0;2;TRead B;;10,20,0,0,-1;M;D;;;;;
0,0;3;b(+);1,2;10,20,0,0,-1;M;D;;;;;
0,0;9;LiteralOp 2;;0,0,-1,-1,-1;S;D;;;;;
0,0;4;b(*);3,9;10,20,0,0,-1;M;D;;;;;
0,0;5;u(exp);4;10,20,0,0,-1;M;D;;;;;
0,0;6;TWrite C;5;10,20,0,0,-1;M;D;;;;;";

#[test]
fn load_plan() {
    let p = load_dag(PLAN).unwrap();
    assert_eq!(p.steps.len(), 7);
    assert!(matches!(&p.steps[0], DagStep::Matrix(x, 10, 20, 200) if x == "A"));
    assert!(matches!(&p.steps[1], DagStep::Matrix(x, 10, 20, 200) if x == "B"));
    assert!(matches!(&p.steps[2], DagStep::Op(Math::LAdd([0, 1]))));
    assert!(matches!(&p.steps[3], DagStep::Literal(t) if t == "2"));
    assert!(matches!(&p.steps[4], DagStep::Op(Math::LMul([2, 3]))));
    assert!(matches!(&p.steps[5], DagStep::Udf(f, a) if f == "u(exp)" && a == &vec![4]));
    assert!(matches!(&p.steps[6], DagStep::Write(x) if x == "C"));
    assert_eq!(p.roots, vec![6]);
}

#[test]
fn load_plan_rejects() {
    assert!(load_dag("0,0;3;b(+);1,2;10,20,0,0,-1;M;D;;;;;").is_none());
    assert!(load_dag("0,0;1;TRead A;;10,20,0,0,;M;D;;;;;").is_none());
    assert!(load_dag("0,0;1;TRead A;;10,20,0,0,5;M;D;;;;;\n0,0;2;b(+);1;1,1,0,0,1;M;D;;;;;").is_none());
    assert!(load_dag("0,0;1;r(t);;1,1,0,0,1").is_none());
    assert!(load_dag("").unwrap().steps.is_empty());
}

#[test]
fn load_plan_later_line_wins() {
    let p = load_dag("0,0;1;TRead A;;1,1,0,0,1;M;D;;;;;\n0,0;1;TRead B;;1,1,0,0,1;M;D;;;;;\n0,0;2;r(t);1;1,1,0,0,1;M;D;;;;;").unwrap();
    assert!(matches!(&p.steps[2], DagStep::Op(Math::LTrs([1]))));
    assert!(p.roots.is_empty());
}

#[test]
fn dag_lines() {
    let num = Math::Num(0);
    assert_eq!(dag_line(3, &Math::LAdd([1, 2]), &num).unwrap(), "0,0;3;b(+);1,2,;;M;D;;;;;");
    assert_eq!(dag_line(8, &Math::Sall([7]), &num).unwrap(), "0,0;8;ua(+RC);7,;;M;D;;;;;");
    assert_eq!(
        dag_line(5, &Math::TWrite("C".to_string()), &num).unwrap(),
        "0,0;5;TWrite C;;;M;D;;;;;"
    );
    assert_eq!(
        dag_line(4, &Math::LMat([7, 1, 2, 3]), &Math::Str("A".to_string())).unwrap(),
        "0,0;4;TRead A;;;M;D;;;;;"
    );
    assert_eq!(
        dag_line(4, &Math::LLit([7]), &Math::Num(-2)).unwrap(),
        "0,0;4;LiteralOp -2;;;M;D;;;;;"
    );
    assert_eq!(
        dag_line(6, &Math::Udf(vec![9, 1, 2]), &Math::Str("b(/)".to_string())).unwrap(),
        "0,0;6;b(/);1,2,;;M;D;;;;;"
    );
    assert_eq!(
        dag_line(6, &Math::Udf(vec![9, 1, 2, 3, 4, 5, 6, 7]), &Math::Str("rix".to_string()))
            .unwrap(),
        "0,0;6;rix;1,2,3,4,5,;;M;D;;;;;"
    );
    assert_eq!(dag_line(6, &Math::Var([1]), &num).unwrap(), "var");
    assert_eq!(dag_line(6, &Math::Add([1, 2]), &num).unwrap(), "0,0;6;UNKNOWN OP;1,2,;;M;D;;;;;");
    assert!(dag_line(6, &Math::Str("x".to_string()), &num).is_none());
    assert!(dag_line(6, &Math::Num(3), &num).is_none());
}

#[test]
fn float_literals_as_std_reads_them() {
    let cases = [
        "6.14", "-2", "+7", "1e5", "1E-5", "2.5e+3", ".5", "5.", "inf", "-Infinity", "NaN", "+nan",
        "INF", "", ".", "e5", "1e", "1e+", "1.2.3", " 1", "1 ", "0x10", "1_000", "--1", "infinit",
        "1.e3", ".e3", "+", "-.5", "00.00", "1e5.0", "iNfInItY",
    ];
    for c in cases {
        assert_eq!(is_float_text(c), c.parse::<f64>().is_ok(), "{:?}", c);
    }
}

#[test]
fn literal_must_be_a_number() {
    assert!(try_parse_op("LiteralOp abc").is_none());
    assert!(try_parse_op("LiteralOp 1e-3").is_some());
    assert!(load_dag("0,0;1;LiteralOp x;;0,0,-1,-1,-1;S;D;;;;;").is_none());
}

#[test]
fn written_line_fields_read_back() {
    let line = dag_line(3, &Math::MMul([17, 2]), &Math::Num(0)).unwrap();
    let f: Vec<&str> = line.split(';').collect();
    assert_eq!(f[1].parse::<u32>(), Ok(3));
    assert!(matches!(parse_op(f[2]), HopOp::Op(s) if s == "ba(+*)"));
    let kids: Vec<u32> = f[3].split(',').filter_map(|s| s.parse().ok()).collect();
    assert_eq!(kids, vec![17, 2]);
    assert!(try_parse_hop(&line).is_none());
}
