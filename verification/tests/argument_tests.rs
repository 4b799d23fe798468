use benchmark_kernel::argument::{
    parse_arguments, parse_dgemm_arguments, parse_option, parse_options, parse_spmv_arguments,
    ArgumentError,
};
use benchmark_kernel::config::{KernelConfig, MatrixLayout, Summary};
use benchmark_kernel::text::{is_float_text, parse_unsigned, text_eq};
use regex::Regex;

fn strings(items: &[&str]) -> Vec<String> {
    items.iter().map(|s| s.to_string()).collect()
}

fn invalid(e: ArgumentError) -> String {
    match e {
        ArgumentError::InvalidArgument(a) => a,
        ArgumentError::NotEnoughArguments => panic!("expected an invalid argument"),
    }
}

#[test]
fn option_syntax_matches_its_pattern() {
    let re = Regex::new(r#"^--([a-z]+)(?:=([A-Za-z0-9.+-]+))?$"#).unwrap();
    let cases = [
        "--m=128", "--verify", "--alpha=1.5", "--layout=col", "--summary=avg", "--a=b.c.1",
        "-m=1", "m=1", "--", "--=", "--m=", "--M=1", "--m=1=2", "--m=A", "---m", "--m1=2",
        "--m =1", "--m=1 ", "", "-", "--x", "--name=value.with.dots", "--n=-1", "--n=+1",
        "--é=1", "--m=é", "--nthreads=4", "--abc=...", "--a==1", "--alpha=-0.5", "--beta=+1E-3",
        "--alpha=-INF", "--m=+5", "--a=1_0", "--a=1,5", "--Alpha=1", "--a=-", "--a=+-",
    ];
    for case in cases.iter() {
        let expected = re.captures(case).map(|c| {
            (c.get(1).unwrap().as_str().to_string(), c.get(2).map(|v| v.as_str().to_string()))
        });
        let got = parse_option(case).ok().map(|o| (o.name, o.value));
        assert_eq!(got, expected, "option text {:?}", case);
    }
}

#[test]
fn option_refusal_names_the_argument() {
    match parse_option("--M=1") {
        Err(ArgumentError::InvalidArgument(a)) => assert_eq!(a, "--M=1"),
        _ => panic!("expected a refusal"),
    }
}

#[test]
fn dgemm_defaults() {
    let (d, t) = parse_dgemm_arguments(&strings(&["./k.so"])).unwrap();
    assert_eq!(d.nthreads, 1);
    assert_eq!(d.layout, MatrixLayout::RowMajor);
    assert!(!d.transa);
    assert!(!d.transb);
    assert_eq!(d.alpha, "1.0");
    assert_eq!(d.beta, "1.0");
    assert_eq!((d.m, d.n, d.k), (100, 100, 100));
    assert_eq!(t.lib_dir, "./k.so");
    assert_eq!(t.warmup, 0);
    assert_eq!(t.iter, 5);
    assert!(!t.verify);
    assert_eq!(t.summary, Summary::Max);
    assert!(!t.concise);
}

#[test]
fn spmv_defaults() {
    let (s, t) = parse_spmv_arguments(&strings(&["lib.so"])).unwrap();
    assert_eq!(s.n, 104);
    assert_eq!(t.lib_dir, "lib.so");
    assert_eq!(t.warmup, 0);
    assert_eq!(t.iter, 5);
    assert!(!t.verify);
    assert_eq!(t.summary, Summary::Max);
    assert!(!t.concise);
}

#[test]
fn readme_dgemm_example() {
    let args = strings(&["dgemm", "./kernel/knl/kernel01.so", "--m=128", "--n=128", "--k=128", "--iter=3"]);
    let (k, t) = parse_arguments(&args).unwrap();
    match k {
        KernelConfig::Dgemm(d) => assert_eq!((d.m, d.n, d.k), (128, 128, 128)),
        KernelConfig::HpcgSpmv(_) => panic!("expected dgemm"),
    }
    assert_eq!(t.iter, 3);
    assert_eq!(t.lib_dir, "./kernel/knl/kernel01.so");
}

#[test]
fn every_dgemm_option() {
    let args = strings(&[
        "DGEMM", "lib", "--nthreads=8", "--layout=col", "--transa=true", "--transb=f",
        "--alpha=2.5", "--beta=0", "--m=1", "--n=2", "--k=3", "--warmup=4", "--iter=6",
        "--verify", "--summary=avg", "--concise",
    ]);
    let (k, t) = parse_arguments(&args).unwrap();
    match k {
        KernelConfig::Dgemm(d) => {
            assert_eq!(d.nthreads, 8);
            assert_eq!(d.layout, MatrixLayout::ColMajor);
            assert!(d.transa);
            assert!(!d.transb);
            assert_eq!(d.alpha, "2.5");
            assert_eq!(d.beta, "0");
            assert_eq!((d.m, d.n, d.k), (1, 2, 3));
        }
        KernelConfig::HpcgSpmv(_) => panic!("expected dgemm"),
    }
    assert_eq!(t.warmup, 4);
    assert_eq!(t.iter, 6);
    assert!(t.verify);
    assert_eq!(t.summary, Summary::Avg);
    assert!(t.concise);
}

#[test]
fn short_option_names() {
    let args = strings(&[
        "lib", "--nt=2", "--l=r", "--ta=t", "--tb=false", "--a=1e3", "--b=.5", "--nrow=7",
        "--w=1", "--i=9", "--summary=min",
    ]);
    let (d, t) = parse_dgemm_arguments(&args).unwrap();
    assert_eq!(d.nthreads, 2);
    assert_eq!(d.layout, MatrixLayout::RowMajor);
    assert!(d.transa);
    assert!(!d.transb);
    assert_eq!(d.alpha, "1e3");
    assert_eq!(d.beta, ".5");
    assert_eq!(d.m, 7);
    assert_eq!(t.warmup, 1);
    assert_eq!(t.iter, 9);
    assert_eq!(t.summary, Summary::Min);
}

#[test]
fn warmup_and_iter_are_independent() {
    let (_, t) = parse_dgemm_arguments(&strings(&["lib", "--warmup=3", "--iter=5"])).unwrap();
    assert_eq!((t.warmup, t.iter), (3, 5));
    let (_, t) = parse_dgemm_arguments(&strings(&["lib", "--iter=5", "--warmup=3"])).unwrap();
    assert_eq!((t.warmup, t.iter), (3, 5));
}

#[test]
fn spmv_command() {
    let (k, t) = parse_arguments(&strings(&["spmv", "lib.so", "--n=16", "--verify"])).unwrap();
    match k {
        KernelConfig::HpcgSpmv(s) => assert_eq!(s.n, 16),
        KernelConfig::Dgemm(_) => panic!("expected spmv"),
    }
    assert!(t.verify);
    let (k, _) = parse_arguments(&strings(&["SPMV", "lib.so"])).unwrap();
    assert!(matches!(k, KernelConfig::HpcgSpmv(s) if s.n == 104));
}

#[test]
fn spmv_accepts_dgemm_options() {
    let (s, _) = parse_spmv_arguments(&strings(&["lib", "--m=3", "--alpha=2"])).unwrap();
    assert_eq!(s.n, 104);
}

#[test]
fn missing_arguments() {
    assert!(matches!(parse_arguments(&strings(&[])), Err(ArgumentError::NotEnoughArguments)));
    assert!(matches!(parse_arguments(&strings(&["dgemm"])), Err(ArgumentError::NotEnoughArguments)));
    assert!(matches!(parse_arguments(&strings(&["spmv"])), Err(ArgumentError::NotEnoughArguments)));
    assert!(matches!(parse_dgemm_arguments(&strings(&[])), Err(ArgumentError::NotEnoughArguments)));
    assert!(matches!(parse_spmv_arguments(&strings(&[])), Err(ArgumentError::NotEnoughArguments)));
}

#[test]
fn unknown_command() {
    assert_eq!(invalid(parse_arguments(&strings(&["sgemm", "lib"])).unwrap_err()), "sgemm");
    assert_eq!(invalid(parse_arguments(&strings(&["Dgemm", "lib"])).unwrap_err()), "Dgemm");
}

#[test]
fn refused_options() {
    let cases: [&[&str]; 14] = [
        &["lib", "--m"],
        &["lib", "--m=-1"],
        &["lib", "--m=4294967296"],
        &["lib", "--nthreads=256"],
        &["lib", "--iter=65536"],
        &["lib", "--layout=diag"],
        &["lib", "--transa=yes"],
        &["lib", "--alpha=1.2.3"],
        &["lib", "--beta=e5"],
        &["lib", "--verify=true"],
        &["lib", "--concise=1"],
        &["lib", "--summary=median"],
        &["lib", "--bogus=1"],
        &["lib", "m=1"],
    ];
    for case in cases.iter() {
        let err = parse_dgemm_arguments(&strings(case)).unwrap_err();
        assert_eq!(invalid(err), case[1], "case {:?}", case);
    }
}

#[test]
fn repeated_option_is_refused() {
    let err = parse_dgemm_arguments(&strings(&["lib", "--m=1", "--k=2", "--nrow=3"])).unwrap_err();
    assert_eq!(invalid(err), "--nrow=3");
    let err = parse_dgemm_arguments(&strings(&["lib", "--verify", "--verify"])).unwrap_err();
    assert_eq!(invalid(err), "--verify");
    let err = parse_dgemm_arguments(&strings(&["lib", "--nt=1", "--nthreads=1"])).unwrap_err();
    assert_eq!(invalid(err), "--nthreads=1");
}

#[test]
fn first_refusal_is_reported() {
    let err = parse_dgemm_arguments(&strings(&["lib", "--x", "--y"])).unwrap_err();
    assert_eq!(invalid(err), "--x");
}

#[test]
fn largest_values_accepted() {
    let (d, t) = parse_dgemm_arguments(&strings(&[
        "lib", "--m=4294967295", "--nthreads=255", "--iter=65535", "--warmup=0065535",
    ]))
    .unwrap();
    assert_eq!(d.m, 4294967295);
    assert_eq!(d.nthreads, 255);
    assert_eq!((t.iter, t.warmup), (65535, 65535));
}

#[test]
fn options_alone() {
    let conf = parse_options(&strings(&["--k=12", "--concise"])).ok().unwrap();
    assert_eq!(conf.k, Some(12));
    assert_eq!(conf.concise, Some(true));
    assert_eq!(conf.m, None);
    assert!(parse_options(&strings(&[])).is_ok());
}

#[test]
fn float_text_agrees_with_std() {
    let cases = [
        "1", "1.", ".5", "1.5", "0", "00.00", "1e5", "1.e5", ".5e10", "1e", "e5", ".", "..", "1.2.3",
        "inf", "infinity", "nan", "nana", "in", "1e5.5", "1ee5", "1e5e5", "abc", "1x", "12345678901234567890",
        "0.000001", "9e999", ".e1", "1.5e0", "na", "infinit", "1e.5", "-0.5", "+2", "-", "+", "--1", "+-1",
        "1E5", "1e-5", "1E+5", "1e+", "1e-", "-inf", "+INF", "Infinity", "-NaN", "nAn", "-.5", "+.",
        "1e5-", "1-", "2.5E-10", "-1E", "INFINITY", "+infinity", "-e5", "1e--5", "1e+-5",
    ];
    for case in cases.iter() {
        assert_eq!(is_float_text(case), case.parse::<f64>().is_ok(), "float text {:?}", case);
    }
}

#[test]
fn unsigned_text_agrees_with_std() {
    let cases = [
        "0", "255", "256", "00255", "", "1.0", "12a", "4294967295", "4294967296", "65535", "65536", "-0",
        "-7", "7+", "1 ",
    ];
    for case in cases.iter() {
        assert_eq!(parse_unsigned(case, 255).map(|v| v as u8), case.parse::<u8>().ok(), "{:?}", case);
        assert_eq!(parse_unsigned(case, 65535).map(|v| v as u16), case.parse::<u16>().ok(), "{:?}", case);
        assert_eq!(parse_unsigned(case, 4294967295), case.parse::<u32>().ok(), "{:?}", case);
    }
}

#[test]
fn text_equality() {
    assert!(text_eq("abc", "abc"));
    assert!(!text_eq("abc", "abd"));
    assert!(!text_eq("abc", "ab"));
    assert!(text_eq("", ""));
}

#[test]
fn argument_error_messages() {
    assert_eq!(ArgumentError::InvalidArgument("--x".to_string()).message(), "invalid argument: --x");
    assert_eq!(ArgumentError::NotEnoughArguments.message(), "not enough argument");
}

#[test]
fn negative_scalars() {
    let (d, _) = parse_dgemm_arguments(&strings(&["lib", "--alpha=-0.5", "--beta=-2E3"])).unwrap();
    assert_eq!(d.alpha, "-0.5");
    assert_eq!(d.beta, "-2E3");
    assert_eq!(d.alpha.parse::<f64>().unwrap(), -0.5);
    let conf = parse_options(&strings(&["--alpha=-0.5"])).ok().unwrap();
    assert_eq!(conf.alpha, Some("-0.5".to_string()));
    assert_eq!(conf.beta, None);
    assert_eq!(conf.m, None);
}

#[test]
fn integer_values_carry_no_sign() {
    let err = parse_dgemm_arguments(&strings(&["lib", "--m=+12"])).unwrap_err();
    assert_eq!(invalid(err), "--m=+12");
    let err = parse_dgemm_arguments(&strings(&["lib", "--n=-3"])).unwrap_err();
    assert_eq!(invalid(err), "--n=-3");
    assert_eq!(parse_unsigned("+7", 255), None);
}

#[test]
fn option_order_does_not_matter() {
    let a = strings(&["--m=1", "--verify", "--alpha=2", "--layout=col", "--iter=7"]);
    let b = strings(&["--iter=7", "--layout=col", "--m=1", "--alpha=2", "--verify"]);
    let ca = parse_options(&a).ok().unwrap();
    let cb = parse_options(&b).ok().unwrap();
    assert_eq!((ca.m, ca.verify, ca.alpha, ca.layout, ca.iter), (cb.m, cb.verify, cb.alpha, cb.layout, cb.iter));
}
