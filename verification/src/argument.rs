//! Parsing of the command line: `COMMAND kernel-lib [--name[=value]...]`.

use vstd::prelude::*;
use vstd::slice::slice_subrange;
use vstd::string::*;

use crate::config::{DgemmConfig, HpcgSpmvConfig, KernelConfig, MatrixLayout, Summary, TestConfig};
use crate::text::{
    decimal_value, float_text, is_float_text, parse_unsigned, text_eq, unsigned_text,
};


verus! {

/// Why a command line was refused.
#[derive(Debug)]
pub enum ArgumentError {
    /// The argument (its whole text) that is not understood.
    InvalidArgument(String),
    NotEnoughArguments,
}

/// `e` is the refusal of the argument whose text is `arg`.
pub open spec fn refuses(e: ArgumentError, arg: Seq<char>) -> bool {
    e matches ArgumentError::InvalidArgument(t) && t@ == arg
}

/// A lower-case ASCII letter, the characters of an option name.
pub open spec fn is_name_char(c: char) -> bool {
    'a' <= c && c <= 'z'
}

/// A character of an option value: an ASCII letter, a digit, a dot or a sign, which
/// covers the floating-point text that `alpha` and `beta` carry. Integer options
/// still take digits only (`unsigned_text`).
pub open spec fn is_value_char(c: char) -> bool {
    ('a' <= c && c <= 'z') || ('A' <= c && c <= 'Z') || ('0' <= c && c <= '9') || c == '.' || c
        == '+' || c == '-'
}

/// One or more lower-case letters.
pub open spec fn option_name(n: Seq<char>) -> bool {
    n.len() > 0 && forall|i: int| 0 <= i < n.len() ==> is_name_char(#[trigger] n[i])
}

/// One or more value characters.
pub open spec fn option_value(v: Seq<char>) -> bool {
    v.len() > 0 && forall|i: int| 0 <= i < v.len() ==> is_value_char(#[trigger] v[i])
}

/// A name, and a value if there is one, that an option may carry.
pub open spec fn well_formed_option(name: Seq<char>, value: Option<Seq<char>>) -> bool {
    option_name(name) && (value matches Some(v) ==> option_value(v))
}

/// The option as written on the command line: `--name` or `--name=value`.
pub open spec fn option_text(name: Seq<char>, value: Option<Seq<char>>) -> Seq<char> {
    seq!['-', '-'] + name + match value {
        None => Seq::<char>::empty(),
        Some(v) => seq!['='] + v,
    }
}

/// `arg` is some well-formed option as written.
pub open spec fn is_option_text(arg: Seq<char>) -> bool {
    exists|n: Seq<char>, v: Option<Seq<char>>| #[trigger]
        well_formed_option(n, v) && arg == option_text(n, v)
}

/// An option split into its name and its value.
pub struct OptionString {
    pub name: String,
    pub value: Option<String>,
}

/// In the text of a well-formed option, the name is exactly the run of letters
/// after the leading `--`.
proof fn lemma_name_is_letter_run(arg: Seq<char>, n: Seq<char>, v: Option<Seq<char>>, k: int)
    requires
        well_formed_option(n, v),
        arg == option_text(n, v),
        2 <= k <= arg.len(),
        forall|j: int| 2 <= j < k ==> is_name_char(#[trigger] arg[j]),
        k == arg.len() || !is_name_char(arg[k]),
    ensures
        n.len() == k - 2,
{
    if n.len() < k - 2 {
        let p: int = (n.len() + 2) as int;
        assert(is_name_char(arg[p]));
        match v {
            None => {
                assert(arg.len() == 2 + n.len());
            },
            Some(w) => {
                assert(arg[p] == '=');
            },
        }
    } else if n.len() > k - 2 {
        assert(arg[k] == n[k - 2]);
        assert(is_name_char(n[k - 2]));
    }
}

/// An option's text determines its name and value: two well-formed options that
/// are written the same are the same option. So `parse_option` gives back exactly
/// the name and value that `option_text` wrote.
pub proof fn lemma_option_text_unique(
    n1: Seq<char>,
    v1: Option<Seq<char>>,
    n2: Seq<char>,
    v2: Option<Seq<char>>,
)
    requires
        well_formed_option(n1, v1),
        well_formed_option(n2, v2),
        option_text(n1, v1) == option_text(n2, v2),
    ensures
        n1 == n2,
        v1 == v2,
{
    let arg = option_text(n1, v1);
    let k: int = (n1.len() + 2) as int;
    assert forall|j: int| 2 <= j < k implies is_name_char(#[trigger] arg[j]) by {
        assert(arg[j] == n1[j - 2]);
    }
    if k < arg.len() {
        assert(v1 is Some);
        assert(arg[k] == '=');
    }
    lemma_name_is_letter_run(arg, n2, v2, k);
    assert(n1 =~= arg.subrange(2, k));
    assert(n2 =~= arg.subrange(2, k));
    match v1 {
        None => {
            if v2 is Some {
                assert(arg.len() == k);
            }
        },
        Some(w1) => {
            assert(v2 is Some);
            let w2 = v2->0;
            assert(w1 =~= arg.subrange(k + 1, arg.len() as int));
            assert(w2 =~= arg.subrange(k + 1, arg.len() as int));
        },
    }
}

/// Splits one command-line option, `--name` or `--name=value`, into its parts.
pub fn parse_option(arg: &str) -> (res: Result<OptionString, ArgumentError>)
    ensures
        res is Ok <==> is_option_text(arg@),
        res matches Ok(o) ==> well_formed_option(o.name@, o.value.deep_view())
            && arg@ == option_text(o.name@, o.value.deep_view()),
        res matches Err(e) ==> refuses(e, arg@),
{
    let len = arg.unicode_len();
    if len < 3 || arg.get_char(0) != '-' || arg.get_char(1) != '-' {
        proof {
            if is_option_text(arg@) {
                let (n, v) = choose|n: Seq<char>, v: Option<Seq<char>>|
                    #[trigger] well_formed_option(n, v) && arg@ == option_text(n, v);
                assert(arg@[0] == '-' && arg@[1] == '-');
                assert(arg@[2] == n[0]);
            }
        }
        return Err(ArgumentError::InvalidArgument(String::from_str(arg)));
    }
    let mut k: usize = 2;
    while k < len
        invariant
            len == arg@.len(),
            2 <= k <= len,
            forall|j: int| 2 <= j < k ==> is_name_char(#[trigger] arg@[j]),
        ensures
            2 <= k <= len,
            forall|j: int| 2 <= j < k ==> is_name_char(#[trigger] arg@[j]),
            k == len || !is_name_char(arg@[k as int]),
        decreases len - k,
    {
        let c = arg.get_char(k);
        if !('a' <= c && c <= 'z') {
            break;
        }
        k = k + 1;
    }
    let ghost nm = arg@.subrange(2, k as int);
    if k == 2 {
        proof {
            if is_option_text(arg@) {
                let (n, v) = choose|n: Seq<char>, v: Option<Seq<char>>|
                    #[trigger] well_formed_option(n, v) && arg@ == option_text(n, v);
                lemma_name_is_letter_run(arg@, n, v, k as int);
            }
        }
        return Err(ArgumentError::InvalidArgument(String::from_str(arg)));
    }
    let name = String::from_str(arg.substring_char(2, k));
    assert(option_name(nm));
    if k == len {
        assert(arg@ =~= option_text(nm, None));
        assert(well_formed_option(nm, None));
        return Ok(OptionString { name, value: None });
    }
    let eq_then_more = arg.get_char(k) == '=' && k + 1 < len;
    let mut i: usize = k + 1;
    if eq_then_more {
        while i < len
            invariant
                len == arg@.len(),
                k + 1 <= i <= len,
                forall|j: int| k + 1 <= j < i ==> is_value_char(#[trigger] arg@[j]),
            ensures
                k + 1 <= i <= len,
                forall|j: int| k + 1 <= j < i ==> is_value_char(#[trigger] arg@[j]),
                i == len || !is_value_char(arg@[i as int]),
            decreases len - i,
        {
            let c = arg.get_char(i);
            if !(('a' <= c && c <= 'z') || ('A' <= c && c <= 'Z') || ('0' <= c && c <= '9') || c == '.'
                || c == '+' || c == '-') {
                break;
            }
            i = i + 1;
        }
    }
    let ghost vl = arg@.subrange(k + 1, len as int);
    if !eq_then_more || i < len {
        proof {
            if is_option_text(arg@) {
                let (n, v) = choose|n: Seq<char>, v: Option<Seq<char>>|
                    #[trigger] well_formed_option(n, v) && arg@ == option_text(n, v);
                lemma_name_is_letter_run(arg@, n, v, k as int);
                match v {
                    None => {},
                    Some(w) => {
                        assert(arg@[k as int] == '=');
                        assert(k + 1 < len);
                        if i < len {
                            assert(arg@[i as int] == w[i - k - 1]);
                        }
                    },
                }
            }
        }
        return Err(ArgumentError::InvalidArgument(String::from_str(arg)));
    }
    let value = String::from_str(arg.substring_char(k + 1, len));
    assert(option_value(vl)) by {
        assert forall|j: int| 0 <= j < vl.len() implies is_value_char(#[trigger] vl[j]) by {
            assert(vl[j] == arg@[k + 1 + j]);
        }
    }
    assert(arg@ =~= option_text(nm, Some(vl)));
    assert(well_formed_option(nm, Some(vl)));
    Ok(OptionString { name, value: Some(value) })
}


/// The settings that options have given so far; `None` where an option has not been
/// given. `alpha` and `beta` are held as their text.
pub struct OptionSettings {
    pub nthreads: Option<u8>,
    pub layout: Option<MatrixLayout>,
    pub transa: Option<bool>,
    pub transb: Option<bool>,
    pub alpha: Option<Seq<char>>,
    pub beta: Option<Seq<char>>,
    pub m: Option<u32>,
    pub n: Option<u32>,
    pub k: Option<u32>,
    pub warmup: Option<u16>,
    pub iter: Option<u16>,
    pub verify: Option<bool>,
    pub summary: Option<Summary>,
    pub concise: Option<bool>,
}

/// No option given yet.
pub open spec fn no_settings() -> OptionSettings {
    OptionSettings {
        nthreads: None,
        layout: None,
        transa: None,
        transb: None,
        alpha: None,
        beta: None,
        m: None,
        n: None,
        k: None,
        warmup: None,
        iter: None,
        verify: None,
        summary: None,
        concise: None,
    }
}

/// The layout a value names: `row`/`r` or `col`/`c`.
pub open spec fn layout_word(v: Seq<char>) -> Option<MatrixLayout> {
    if v == "row"@ || v == "r"@ {
        Some(MatrixLayout::RowMajor)
    } else if v == "col"@ || v == "c"@ {
        Some(MatrixLayout::ColMajor)
    } else {
        None
    }
}

/// The truth value a value names: `true`/`t` or `false`/`f`.
pub open spec fn bool_word(v: Seq<char>) -> Option<bool> {
    if v == "true"@ || v == "t"@ {
        Some(true)
    } else if v == "false"@ || v == "f"@ {
        Some(false)
    } else {
        None
    }
}

/// The summary a value names: `min`, `avg` or `max`.
pub open spec fn summary_word(v: Seq<char>) -> Option<Summary> {
    if v == "min"@ {
        Some(Summary::Min)
    } else if v == "avg"@ {
        Some(Summary::Avg)
    } else if v == "max"@ {
        Some(Summary::Max)
    } else {
        None
    }
}

/// The value of an integer option no greater than `max`.
pub open spec fn number_word(value: Option<Seq<char>>, max: nat) -> Option<nat> {
    match value {
        Some(v) => if unsigned_text(v, max) {
            Some(decimal_value(v))
        } else {
            None
        },
        None => None,
    }
}

/// The settings after the option `name` with `value`, or `None` where the option is
/// refused: an unknown name, a missing, surplus or unreadable value, or an option
/// given a second time. `warmup`/`w` sets the warm-up count; `nrow` is another name
/// of `m`.
pub open spec fn apply_option(c: OptionSettings, name: Seq<char>, value: Option<Seq<char>>) -> Option<
    OptionSettings,
> {
    if name == "nthreads"@ || name == "nt"@ {
        match number_word(value, 255) {
            Some(x) if c.nthreads is None => Some(OptionSettings { nthreads: Some(x as u8), ..c }),
            _ => None,
        }
    } else if name == "layout"@ || name == "l"@ {
        match value {
            Some(v) => match layout_word(v) {
                Some(l) if c.layout is None => Some(OptionSettings { layout: Some(l), ..c }),
                _ => None,
            },
            None => None,
        }
    } else if name == "transa"@ || name == "ta"@ {
        match value {
            Some(v) => match bool_word(v) {
                Some(b) if c.transa is None => Some(OptionSettings { transa: Some(b), ..c }),
                _ => None,
            },
            None => None,
        }
    } else if name == "transb"@ || name == "tb"@ {
        match value {
            Some(v) => match bool_word(v) {
                Some(b) if c.transb is None => Some(OptionSettings { transb: Some(b), ..c }),
                _ => None,
            },
            None => None,
        }
    } else if name == "alpha"@ || name == "a"@ {
        match value {
            Some(v) if float_text(v) && c.alpha is None => Some(OptionSettings { alpha: Some(v), ..c }),
            _ => None,
        }
    } else if name == "beta"@ || name == "b"@ {
        match value {
            Some(v) if float_text(v) && c.beta is None => Some(OptionSettings { beta: Some(v), ..c }),
            _ => None,
        }
    } else if name == "m"@ || name == "nrow"@ {
        match number_word(value, 4294967295) {
            Some(x) if c.m is None => Some(OptionSettings { m: Some(x as u32), ..c }),
            _ => None,
        }
    } else if name == "n"@ {
        match number_word(value, 4294967295) {
            Some(x) if c.n is None => Some(OptionSettings { n: Some(x as u32), ..c }),
            _ => None,
        }
    } else if name == "k"@ {
        match number_word(value, 4294967295) {
            Some(x) if c.k is None => Some(OptionSettings { k: Some(x as u32), ..c }),
            _ => None,
        }
    } else if name == "warmup"@ || name == "w"@ {
        match number_word(value, 65535) {
            Some(x) if c.warmup is None => Some(OptionSettings { warmup: Some(x as u16), ..c }),
            _ => None,
        }
    } else if name == "iter"@ || name == "i"@ {
        match number_word(value, 65535) {
            Some(x) if c.iter is None => Some(OptionSettings { iter: Some(x as u16), ..c }),
            _ => None,
        }
    } else if name == "verify"@ {
        if value is None && c.verify is None {
            Some(OptionSettings { verify: Some(true), ..c })
        } else {
            None
        }
    } else if name == "summary"@ {
        match value {
            Some(v) => match summary_word(v) {
                Some(x) if c.summary is None => Some(OptionSettings { summary: Some(x), ..c }),
                _ => None,
            },
            None => None,
        }
    } else if name == "concise"@ {
        if value is None && c.concise is None {
            Some(OptionSettings { concise: Some(true), ..c })
        } else {
            None
        }
    } else {
        None
    }
}


/// The options read so far; `None` where an option has not been given.
pub struct OptionConfig {
    pub nthreads: Option<u8>,
    pub layout: Option<MatrixLayout>,
    pub transa: Option<bool>,
    pub transb: Option<bool>,
    pub alpha: Option<String>,
    pub beta: Option<String>,
    pub m: Option<u32>,
    pub n: Option<u32>,
    pub k: Option<u32>,
    pub warmup: Option<u16>,
    pub iter: Option<u16>,
    pub verify: Option<bool>,
    pub summary: Option<Summary>,
    pub concise: Option<bool>,
}

impl View for OptionConfig {
    type V = OptionSettings;

    open spec fn view(&self) -> OptionSettings {
        OptionSettings {
            nthreads: self.nthreads,
            layout: self.layout,
            transa: self.transa,
            transb: self.transb,
            alpha: self.alpha.deep_view(),
            beta: self.beta.deep_view(),
            m: self.m,
            n: self.n,
            k: self.k,
            warmup: self.warmup,
            iter: self.iter,
            verify: self.verify,
            summary: self.summary,
            concise: self.concise,
        }
    }
}

/// Reads `layout_word`.
fn layout_of(v: &str) -> (r: Option<MatrixLayout>)
    ensures
        r == layout_word(v@),
{
    if text_eq(v, "row") || text_eq(v, "r") {
        Some(MatrixLayout::RowMajor)
    } else if text_eq(v, "col") || text_eq(v, "c") {
        Some(MatrixLayout::ColMajor)
    } else {
        None
    }
}

/// Reads `bool_word`.
fn bool_of(v: &str) -> (r: Option<bool>)
    ensures
        r == bool_word(v@),
{
    if text_eq(v, "true") || text_eq(v, "t") {
        Some(true)
    } else if text_eq(v, "false") || text_eq(v, "f") {
        Some(false)
    } else {
        None
    }
}

/// Reads `summary_word`.
fn summary_of(v: &str) -> (r: Option<Summary>)
    ensures
        r == summary_word(v@),
{
    if text_eq(v, "min") {
        Some(Summary::Min)
    } else if text_eq(v, "avg") {
        Some(Summary::Avg)
    } else if text_eq(v, "max") {
        Some(Summary::Max)
    } else {
        None
    }
}

/// Reads `number_word`.
fn number_of(value: &Option<String>, max: u32) -> (r: Option<u32>)
    ensures
        r == match number_word(value.deep_view(), max as nat) {
            Some(x) => Some(x as u32),
            None => None::<u32>,
        },
{
    match value {
        Some(v) => parse_unsigned(v.as_str(), max),
        None => None,
    }
}

/// Copies the text of a value, if there is one.
fn copy_value(value: &Option<String>) -> (r: Option<String>)
    ensures
        r.deep_view() == value.deep_view(),
{
    match value {
        Some(v) => Some(v.clone()),
        None => None,
    }
}

impl OptionConfig {
    /// No option given yet.
    pub fn new() -> (c: Self)
        ensures
            c@ == no_settings(),
    {
        OptionConfig {
            nthreads: None,
            layout: None,
            transa: None,
            transb: None,
            alpha: None,
            beta: None,
            m: None,
            n: None,
            k: None,
            warmup: None,
            iter: None,
            verify: None,
            summary: None,
            concise: None,
        }
    }

    /// Records the option `name` with `value`, as `apply_option` says; on refusal
    /// the settings are left as they were.
    pub fn set_option(&mut self, name: &str, value: &Option<String>) -> (ok: bool)
        ensures
            ok == apply_option(old(self)@, name@, value.deep_view()) is Some,
            ok ==> final(self)@ == apply_option(old(self)@, name@, value.deep_view())->0,
            !ok ==> final(self)@ == old(self)@,
    {
        if text_eq(name, "nthreads") || text_eq(name, "nt") {
            match number_of(value, 255) {
                Some(x) => {
                    if self.nthreads.is_none() {
                        self.nthreads = Some(x as u8);
                        true
                    } else {
                        false
                    }
                },
                None => false,
            }
        } else if text_eq(name, "layout") || text_eq(name, "l") {
            match value {
                Some(v) => match layout_of(v.as_str()) {
                    Some(l) => {
                        if self.layout.is_none() {
                            self.layout = Some(l);
                            true
                        } else {
                            false
                        }
                    },
                    None => false,
                },
                None => false,
            }
        } else if text_eq(name, "transa") || text_eq(name, "ta") {
            match value {
                Some(v) => match bool_of(v.as_str()) {
                    Some(b) => {
                        if self.transa.is_none() {
                            self.transa = Some(b);
                            true
                        } else {
                            false
                        }
                    },
                    None => false,
                },
                None => false,
            }
        } else if text_eq(name, "transb") || text_eq(name, "tb") {
            match value {
                Some(v) => match bool_of(v.as_str()) {
                    Some(b) => {
                        if self.transb.is_none() {
                            self.transb = Some(b);
                            true
                        } else {
                            false
                        }
                    },
                    None => false,
                },
                None => false,
            }
        } else if text_eq(name, "alpha") || text_eq(name, "a") {
            match value {
                Some(v) => {
                    if is_float_text(v.as_str()) && self.alpha.is_none() {
                        self.alpha = copy_value(value);
                        true
                    } else {
                        false
                    }
                },
                None => false,
            }
        } else if text_eq(name, "beta") || text_eq(name, "b") {
            match value {
                Some(v) => {
                    if is_float_text(v.as_str()) && self.beta.is_none() {
                        self.beta = copy_value(value);
                        true
                    } else {
                        false
                    }
                },
                None => false,
            }
        } else if text_eq(name, "m") || text_eq(name, "nrow") {
            match number_of(value, 4294967295) {
                Some(x) => {
                    if self.m.is_none() {
                        self.m = Some(x);
                        true
                    } else {
                        false
                    }
                },
                None => false,
            }
        } else if text_eq(name, "n") {
            match number_of(value, 4294967295) {
                Some(x) => {
                    if self.n.is_none() {
                        self.n = Some(x);
                        true
                    } else {
                        false
                    }
                },
                None => false,
            }
        } else if text_eq(name, "k") {
            match number_of(value, 4294967295) {
                Some(x) => {
                    if self.k.is_none() {
                        self.k = Some(x);
                        true
                    } else {
                        false
                    }
                },
                None => false,
            }
        } else if text_eq(name, "warmup") || text_eq(name, "w") {
            match number_of(value, 65535) {
                Some(x) => {
                    if self.warmup.is_none() {
                        self.warmup = Some(x as u16);
                        true
                    } else {
                        false
                    }
                },
                None => false,
            }
        } else if text_eq(name, "iter") || text_eq(name, "i") {
            match number_of(value, 65535) {
                Some(x) => {
                    if self.iter.is_none() {
                        self.iter = Some(x as u16);
                        true
                    } else {
                        false
                    }
                },
                None => false,
            }
        } else if text_eq(name, "verify") {
            if value.is_none() && self.verify.is_none() {
                self.verify = Some(true);
                true
            } else {
                false
            }
        } else if text_eq(name, "summary") {
            match value {
                Some(v) => match summary_of(v.as_str()) {
                    Some(x) => {
                        if self.summary.is_none() {
                            self.summary = Some(x);
                            true
                        } else {
                            false
                        }
                    },
                    None => false,
                },
                None => false,
            }
        } else if text_eq(name, "concise") {
            if value.is_none() && self.concise.is_none() {
                self.concise = Some(true);
                true
            } else {
                false
            }
        } else {
            false
        }
    }
}


/// The settings after the command-line option `arg`, or `None` where it is refused.
pub open spec fn option_step(c: OptionSettings, arg: Seq<char>) -> Option<OptionSettings> {
    if is_option_text(arg) {
        let (n, v) = choose|n: Seq<char>, v: Option<Seq<char>>|
            #[trigger] well_formed_option(n, v) && arg == option_text(n, v);
        apply_option(c, n, v)
    } else {
        None
    }
}

/// The settings that a list of options gives when read from first to last, starting
/// from `c`, or the text of the first option that is refused.
pub open spec fn options_from(c: OptionSettings, args: Seq<Seq<char>>) -> Result<
    OptionSettings,
    Seq<char>,
>
    decreases args.len(),
{
    if args.len() == 0 {
        Ok(c)
    } else {
        match options_from(c, args.drop_last()) {
            Err(a) => Err(a),
            Ok(c1) => match option_step(c1, args.last()) {
                Some(c2) => Ok(c2),
                None => Err(args.last()),
            },
        }
    }
}

/// The settings that a list of options gives, read from first to last, or the text
/// of the first option that is refused.
pub open spec fn options_outcome(args: Seq<Seq<char>>) -> Result<OptionSettings, Seq<char>> {
    options_from(no_settings(), args)
}

/// Reads the options of a command line; the first refused option is the error.
pub fn parse_options(args: &[String]) -> (res: Result<OptionConfig, ArgumentError>)
    ensures
        match options_outcome(args.deep_view()) {
            Ok(c) => res matches Ok(conf) && conf@ == c,
            Err(a) => res matches Err(e) && refuses(e, a),
        },
{
    let ghost all = args.deep_view();
    let mut conf = OptionConfig::new();
    let mut i: usize = 0;
    assert(all.take(0) =~= Seq::<Seq<char>>::empty());
    while i < args.len()
        invariant
            all == args.deep_view(),
            i <= args.len(),
            options_outcome(all.take(i as int)) == Ok::<OptionSettings, Seq<char>>(conf@),
        decreases args.len() - i,
    {
        let arg = &args[i];
        assert(all[i as int] == arg@);
        assert(all.take(i + 1).drop_last() =~= all.take(i as int));
        assert(all.take(i + 1).last() == arg@);
        match parse_option(arg.as_str()) {
            Err(e) => {
                proof {
                    lemma_outcome_error_persists(all, i as int + 1);
                }
                return Err(e);
            },
            Ok(o) => {
                proof {
                    let (n, v) = choose|n: Seq<char>, v: Option<Seq<char>>|
                        #[trigger] well_formed_option(n, v) && arg@ == option_text(n, v);
                    lemma_option_text_unique(n, v, o.name@, o.value.deep_view());
                }
                if !conf.set_option(o.name.as_str(), &o.value) {
                    proof {
                        lemma_outcome_error_persists(all, i as int + 1);
                    }
                    return Err(ArgumentError::InvalidArgument(arg.clone()));
                }
            },
        }
        i = i + 1;
    }
    assert(all.take(args.len() as int) =~= all);
    Ok(conf)
}

/// Once an option is refused, the outcome of the whole list is that refusal.
proof fn lemma_outcome_error_persists(all: Seq<Seq<char>>, i: int)
    requires
        0 <= i <= all.len(),
        options_outcome(all.take(i)) is Err,
    ensures
        options_outcome(all) == options_outcome(all.take(i)),
    decreases all.len() - i,
{
    if i < all.len() {
        assert(all.take(i + 1).drop_last() =~= all.take(i));
        lemma_outcome_error_persists(all, i + 1);
    } else {
        assert(all.take(i) =~= all);
    }
}


/// The setting given, or the default where none is.
pub open spec fn given_or<T>(o: Option<T>, default: T) -> T {
    match o {
        Some(x) => x,
        None => default,
    }
}

/// `d` holds the DGEMM settings of `c`, with the documented defaults: one thread,
/// row-major, no transposes, `alpha` and `beta` 1.0, and `m`, `n`, `k` 100.
pub open spec fn dgemm_from_settings(d: DgemmConfig, c: OptionSettings) -> bool {
    &&& d.nthreads == given_or(c.nthreads, 1u8)
    &&& d.layout == given_or(c.layout, MatrixLayout::RowMajor)
    &&& d.transa == given_or(c.transa, false)
    &&& d.transb == given_or(c.transb, false)
    &&& d.alpha@ == given_or(c.alpha, "1.0"@)
    &&& d.beta@ == given_or(c.beta, "1.0"@)
    &&& d.m == given_or(c.m, 100u32)
    &&& d.n == given_or(c.n, 100u32)
    &&& d.k == given_or(c.k, 100u32)
}

/// `s` holds the SpMV settings of `c`: the grid size `n`, 104 by default.
pub open spec fn spmv_from_settings(s: HpcgSpmvConfig, c: OptionSettings) -> bool {
    s.n == given_or(c.n, 104u32)
}

/// `t` holds the library `lib` and the measuring settings of `c`, with the documented
/// defaults: no warm-up, 5 iterations, no verification, the `max` summary, the full
/// report.
pub open spec fn test_from_settings(t: TestConfig, lib: Seq<char>, c: OptionSettings) -> bool {
    &&& t.lib_dir@ == lib
    &&& t.warmup == given_or(c.warmup, 0u16)
    &&& t.iter == given_or(c.iter, 5u16)
    &&& t.verify == given_or(c.verify, false)
    &&& t.summary == given_or(c.summary, Summary::Max)
    &&& t.concise == given_or(c.concise, false)
}

/// The outcome of `kernel-lib [options...]` for the DGEMM command.
pub open spec fn dgemm_arguments_spec(
    args: Seq<Seq<char>>,
    res: Result<(DgemmConfig, TestConfig), ArgumentError>,
) -> bool {
    if args.len() == 0 {
        res matches Err(ArgumentError::NotEnoughArguments)
    } else {
        match options_outcome(args.skip(1)) {
            Ok(c) => res matches Ok((d, t)) && dgemm_from_settings(d, c) && test_from_settings(
                t,
                args[0],
                c,
            ),
            Err(a) => res matches Err(e) && refuses(e, a),
        }
    }
}

/// The outcome of `kernel-lib [options...]` for the SpMV command.
pub open spec fn spmv_arguments_spec(
    args: Seq<Seq<char>>,
    res: Result<(HpcgSpmvConfig, TestConfig), ArgumentError>,
) -> bool {
    if args.len() == 0 {
        res matches Err(ArgumentError::NotEnoughArguments)
    } else {
        match options_outcome(args.skip(1)) {
            Ok(c) => res matches Ok((s, t)) && spmv_from_settings(s, c) && test_from_settings(
                t,
                args[0],
                c,
            ),
            Err(a) => res matches Err(e) && refuses(e, a),
        }
    }
}

/// The command names: `dgemm`/`DGEMM` and `spmv`/`SPMV`.
pub open spec fn is_dgemm_command(cmd: Seq<char>) -> bool {
    cmd == "dgemm"@ || cmd == "DGEMM"@
}

/// See `is_dgemm_command`.
pub open spec fn is_spmv_command(cmd: Seq<char>) -> bool {
    cmd == "spmv"@ || cmd == "SPMV"@
}

/// The outcome of a whole command line `COMMAND kernel-lib [options...]`.
pub open spec fn arguments_spec(
    args: Seq<Seq<char>>,
    res: Result<(KernelConfig, TestConfig), ArgumentError>,
) -> bool {
    if args.len() == 0 {
        res matches Err(ArgumentError::NotEnoughArguments)
    } else if is_dgemm_command(args[0]) {
        let rest = args.skip(1);
        if rest.len() == 0 {
            res matches Err(ArgumentError::NotEnoughArguments)
        } else {
            match options_outcome(rest.skip(1)) {
                Ok(c) => res matches Ok((KernelConfig::Dgemm(d), t)) && dgemm_from_settings(d, c)
                    && test_from_settings(t, rest[0], c),
                Err(a) => res matches Err(e) && refuses(e, a),
            }
        }
    } else if is_spmv_command(args[0]) {
        let rest = args.skip(1);
        if rest.len() == 0 {
            res matches Err(ArgumentError::NotEnoughArguments)
        } else {
            match options_outcome(rest.skip(1)) {
                Ok(c) => res matches Ok((KernelConfig::HpcgSpmv(s), t)) && spmv_from_settings(s, c)
                    && test_from_settings(t, rest[0], c),
                Err(a) => res matches Err(e) && refuses(e, a),
            }
        }
    } else {
        res matches Err(e) && refuses(e, args[0])
    }
}

/// The text of an option, or `default` where it was not given.
fn text_or(o: Option<String>, default: &str) -> (s: String)
    ensures
        s@ == given_or(o.deep_view(), default@),
{
    match o {
        Some(x) => x,
        None => String::from_str(default),
    }
}

/// The measuring settings, with the library path `lib_dir`.
fn test_config_of(lib_dir: &String, conf: &OptionConfig) -> (t: TestConfig)
    ensures
        test_from_settings(t, lib_dir@, conf@),
{
    TestConfig {
        lib_dir: lib_dir.clone(),
        warmup: conf.warmup.unwrap_or(0),
        iter: conf.iter.unwrap_or(5),
        verify: conf.verify.unwrap_or(false),
        summary: conf.summary.unwrap_or(Summary::Max),
        concise: conf.concise.unwrap_or(false),
    }
}

/// Dropping the first argument of a command line, as a sequence of texts.
proof fn lemma_tail_view(args: &[String], rest: &[String])
    requires
        args@.len() > 0,
        rest@ == args@.subrange(1, args@.len() as int),
    ensures
        rest.deep_view() == args.deep_view().skip(1),
        args.deep_view()[0] == args@[0]@,
{
    assert(rest.deep_view() =~= args.deep_view().skip(1));
}

/// Reads `kernel-lib [options...]` for the DGEMM command.
pub fn parse_dgemm_arguments(args: &[String]) -> (res: Result<(DgemmConfig, TestConfig), ArgumentError>)
    ensures
        dgemm_arguments_spec(args.deep_view(), res),
{
    if args.len() < 1 {
        return Err(ArgumentError::NotEnoughArguments);
    }
    let opts = slice_subrange(args, 1, args.len());
    proof {
        lemma_tail_view(args, opts);
    }
    let conf = match parse_options(opts) {
        Ok(c) => c,
        Err(e) => {
            return Err(e);
        },
    };
    let test_config = test_config_of(&args[0], &conf);
    let dgemm_config = DgemmConfig {
        nthreads: conf.nthreads.unwrap_or(1),
        layout: conf.layout.unwrap_or(MatrixLayout::RowMajor),
        transa: conf.transa.unwrap_or(false),
        transb: conf.transb.unwrap_or(false),
        alpha: text_or(conf.alpha, "1.0"),
        beta: text_or(conf.beta, "1.0"),
        m: conf.m.unwrap_or(100),
        n: conf.n.unwrap_or(100),
        k: conf.k.unwrap_or(100),
    };
    Ok((dgemm_config, test_config))
}

/// Reads `kernel-lib [options...]` for the SpMV command.
pub fn parse_spmv_arguments(args: &[String]) -> (res: Result<(HpcgSpmvConfig, TestConfig), ArgumentError>)
    ensures
        spmv_arguments_spec(args.deep_view(), res),
{
    if args.len() < 1 {
        return Err(ArgumentError::NotEnoughArguments);
    }
    let opts = slice_subrange(args, 1, args.len());
    proof {
        lemma_tail_view(args, opts);
    }
    let conf = match parse_options(opts) {
        Ok(c) => c,
        Err(e) => {
            return Err(e);
        },
    };
    let test_config = test_config_of(&args[0], &conf);
    let spmv_config = HpcgSpmvConfig { n: conf.n.unwrap_or(104) };
    Ok((spmv_config, test_config))
}

/// Reads a whole command line `COMMAND kernel-lib [options...]`.
pub fn parse_arguments(args: &[String]) -> (res: Result<(KernelConfig, TestConfig), ArgumentError>)
    ensures
        arguments_spec(args.deep_view(), res),
{
    if args.len() < 1 {
        return Err(ArgumentError::NotEnoughArguments);
    }
    let cmd = args[0].as_str();
    let rest = slice_subrange(args, 1, args.len());
    proof {
        lemma_tail_view(args, rest);
    }
    if text_eq(cmd, "dgemm") || text_eq(cmd, "DGEMM") {
        match parse_dgemm_arguments(rest) {
            Ok((d, t)) => Ok((KernelConfig::Dgemm(d), t)),
            Err(e) => Err(e),
        }
    } else if text_eq(cmd, "spmv") || text_eq(cmd, "SPMV") {
        match parse_spmv_arguments(rest) {
            Ok((s, t)) => Ok((KernelConfig::HpcgSpmv(s), t)),
            Err(e) => Err(e),
        }
    } else {
        Err(ArgumentError::InvalidArgument(String::from_str(cmd)))
    }
}

/// The message that describes an `ArgumentError`.
pub open spec fn argument_error_text(e: ArgumentError) -> Seq<char> {
    match e {
        ArgumentError::InvalidArgument(arg) => "invalid argument: "@ + arg@,
        ArgumentError::NotEnoughArguments => "not enough argument"@,
    }
}

impl ArgumentError {
    /// Describes the error.
    pub fn message(&self) -> (s: String)
        ensures
            s@ == argument_error_text(*self),
    {
        match self {
            ArgumentError::InvalidArgument(arg) => {
                let mut s = String::from_str("invalid argument: ");
                s.append(arg.as_str());
                s
            },
            ArgumentError::NotEnoughArguments => String::from_str("not enough argument"),
        }
    }
}

/// Every option can be given only once: once an option has been accepted, giving it
/// again, with any value, is refused.
pub proof fn lemma_option_given_once(
    c: OptionSettings,
    name: Seq<char>,
    v1: Option<Seq<char>>,
    v2: Option<Seq<char>>,
)
    requires
        apply_option(c, name, v1) is Some,
    ensures
        apply_option(apply_option(c, name, v1)->0, name, v2) is None,
{
}

/// The order of options does not matter: where two options are accepted one after
/// the other, they are also accepted in the other order, with the same settings.
#[verifier::rlimit(50)]
pub proof fn lemma_options_commute(
    c: OptionSettings,
    n1: Seq<char>,
    v1: Option<Seq<char>>,
    n2: Seq<char>,
    v2: Option<Seq<char>>,
)
    requires
        apply_option(c, n1, v1) is Some,
        apply_option(apply_option(c, n1, v1)->0, n2, v2) is Some,
    ensures
        apply_option(c, n2, v2) is Some,
        apply_option(apply_option(c, n2, v2)->0, n1, v1) == apply_option(
            apply_option(c, n1, v1)->0,
            n2,
            v2,
        ),
{
}

/// Reading `a` then `b` is reading `a + b`.
proof fn lemma_options_from_concat(c: OptionSettings, a: Seq<Seq<char>>, b: Seq<Seq<char>>)
    ensures
        options_from(c, a + b) == match options_from(c, a) {
            Err(x) => Err(x),
            Ok(c1) => options_from(c1, b),
        },
    decreases b.len(),
{
    if b.len() == 0 {
        assert(a + b =~= a);
    } else {
        lemma_options_from_concat(c, a, b.drop_last());
        assert((a + b).drop_last() =~= a + b.drop_last());
        assert((a + b).last() == b.last());
    }
}

/// Two options accepted one after the other are also accepted in the other order,
/// with the same settings.
proof fn lemma_option_steps_commute(c: OptionSettings, x: Seq<char>, y: Seq<char>)
    requires
        option_step(c, x) is Some,
        option_step(option_step(c, x)->0, y) is Some,
    ensures
        option_step(c, y) is Some,
        option_step(option_step(c, y)->0, x) == option_step(option_step(c, x)->0, y),
{
    let (n1, v1) = choose|n: Seq<char>, v: Option<Seq<char>>|
        #[trigger] well_formed_option(n, v) && x == option_text(n, v);
    let (n2, v2) = choose|n: Seq<char>, v: Option<Seq<char>>|
        #[trigger] well_formed_option(n, v) && y == option_text(n, v);
    lemma_options_commute(c, n1, v1, n2, v2);
}

/// Reading two options in two steps.
proof fn lemma_options_from_pair(c: OptionSettings, x: Seq<char>, y: Seq<char>)
    ensures
        options_from(c, seq![x, y]) == match option_step(c, x) {
            None => Err::<OptionSettings, Seq<char>>(x),
            Some(c1) => match option_step(c1, y) {
                None => Err(y),
                Some(c2) => Ok(c2),
            },
        },
{
    let s1 = seq![x];
    let s2 = seq![x, y];
    assert(s1.drop_last() =~= Seq::<Seq<char>>::empty());
    assert(options_from(c, s1.drop_last()) == Ok::<OptionSettings, Seq<char>>(c));
    assert(s1.last() == x);
    assert(options_from(c, s1) == match option_step(c, x) {
        None => Err::<OptionSettings, Seq<char>>(x),
        Some(c1) => Ok(c1),
    });
    assert(s2.drop_last() =~= s1);
    assert(s2.last() == y);
}

/// Swapping two neighboring options of an accepted list keeps the outcome.
proof fn lemma_options_swap(c: OptionSettings, s: Seq<Seq<char>>, i: int)
    requires
        options_from(c, s) is Ok,
        0 <= i < s.len() - 1,
    ensures
        options_from(c, s.update(i, s[i + 1]).update(i + 1, s[i])) == options_from(c, s),
{
    let pre = s.take(i);
    let post = s.skip(i + 2);
    let x = s[i];
    let y = s[i + 1];
    let t = s.update(i, y).update(i + 1, x);
    assert(s =~= (pre + seq![x, y]) + post);
    assert(t =~= (pre + seq![y, x]) + post);
    lemma_options_from_concat(c, pre + seq![x, y], post);
    lemma_options_from_concat(c, pre + seq![y, x], post);
    lemma_options_from_concat(c, pre, seq![x, y]);
    lemma_options_from_concat(c, pre, seq![y, x]);
    let c0 = options_from(c, pre)->Ok_0;
    lemma_options_from_pair(c0, x, y);
    lemma_options_from_pair(c0, y, x);
    lemma_option_steps_commute(c0, x, y);
}

/// Moving one option of an accepted list to its end keeps the outcome.
proof fn lemma_options_move_to_end(c: OptionSettings, s: Seq<Seq<char>>, j: int)
    requires
        options_from(c, s) is Ok,
        0 <= j < s.len(),
    ensures
        options_from(c, s.remove(j).push(s[j])) == options_from(c, s),
    decreases s.len() - j,
{
    if j == s.len() - 1 {
        assert(s.remove(j).push(s[j]) =~= s);
    } else {
        let t = s.update(j, s[j + 1]).update(j + 1, s[j]);
        lemma_options_swap(c, s, j);
        lemma_options_move_to_end(c, t, j + 1);
        assert(t.remove(j + 1).push(t[j + 1]) =~= s.remove(j).push(s[j]));
    }
}

/// The order of options does not matter: any reordering of a list of options that
/// is accepted is accepted too, with the same settings.
pub proof fn lemma_options_order_free(args: Seq<Seq<char>>, reordered: Seq<Seq<char>>)
    requires
        options_outcome(args) is Ok,
        reordered.to_multiset() == args.to_multiset(),
    ensures
        options_outcome(reordered) == options_outcome(args),
{
    lemma_options_from_reordered(no_settings(), args, reordered);
}

/// `lemma_options_order_free`, from any settings.
proof fn lemma_options_from_reordered(c: OptionSettings, s: Seq<Seq<char>>, p: Seq<Seq<char>>)
    requires
        options_from(c, s) is Ok,
        p.to_multiset() == s.to_multiset(),
    ensures
        options_from(c, p) == options_from(c, s),
    decreases p.len(),
{
    broadcast use vstd::seq_lib::group_to_multiset_ensures;
    broadcast use vstd::multiset::group_multiset_axioms;

    vstd::seq_lib::to_multiset_len(p);
    vstd::seq_lib::to_multiset_len(s);
    assert(p.len() == s.len());
    if p.len() == 0 {
        assert(s =~= p);
    } else {
        let x = p.last();
        assert(p.to_multiset().count(x) > 0) by {
            assert(p.contains(x)) by {
                assert(p[p.len() - 1] == x);
            }
        }
        assert(s.contains(x));
        let j = choose|j: int| 0 <= j < s.len() && s[j] == x;
        lemma_options_move_to_end(c, s, j);
        let rest = s.remove(j);
        assert(rest.push(x) =~= s.remove(j).push(s[j]));
        assert(rest.push(x).drop_last() =~= rest);
        assert(options_from(c, rest) is Ok);
        assert(p.remove(p.len() - 1) =~= p.drop_last());
        assert(p.drop_last().to_multiset() =~= rest.to_multiset());
        lemma_options_from_reordered(c, rest, p.drop_last());
    }
}

/// The text `--name=value` determines its name and value whenever the name is made of
/// lower-case letters, whatever characters the value holds: the only well-formed
/// option written that way is `name` with `value`.
proof fn lemma_option_text_parts(name: Seq<char>, value: Seq<char>, n2: Seq<char>, v2: Option<Seq<char>>)
    requires
        option_name(name),
        well_formed_option(n2, v2),
        option_text(n2, v2) == option_text(name, Some(value)),
    ensures
        n2 == name,
        v2 == Some(value),
{
    let arg = option_text(name, Some(value));
    let k: int = (name.len() + 2) as int;
    assert forall|j: int| 2 <= j < k implies is_name_char(#[trigger] arg[j]) by {
        assert(arg[j] == name[j - 2]);
    }
    assert(arg[k] == '=');
    lemma_name_is_letter_run(arg, n2, v2, k);
    assert(name =~= arg.subrange(2, k));
    assert(n2 =~= arg.subrange(2, k));
    if v2 is None {
        assert(arg.len() == k);
    }
    let w2 = v2->0;
    assert(value =~= arg.subrange(k + 1, arg.len() as int));
    assert(w2 =~= arg.subrange(k + 1, arg.len() as int));
}

/// The characters an option value may hold: every ASCII letter `a`-`z` and `A`-`Z`,
/// every digit, `.`, `+` and `-`, and nothing else. `--name=value`, with a name of
/// lower-case letters and a nonempty value, is option text exactly when each
/// character of the value is one of these, and it then reads back as that name and
/// that value, so `parse_option` gives them.
pub proof fn lemma_option_value_chars(name: Seq<char>, value: Seq<char>)
    requires
        name.len() > 0,
        forall|j: int| 0 <= j < name.len() ==> 'a' <= #[trigger] name[j] <= 'z',
        value.len() > 0,
    ensures
        is_option_text(seq!['-', '-'] + name + seq!['='] + value) <==> forall|j: int|
            0 <= j < value.len() ==> {
                let c = #[trigger] value[j];
                ||| 'a' <= c <= 'z'
                ||| 'A' <= c <= 'Z'
                ||| '0' <= c <= '9'
                ||| c == '.'
                ||| c == '+'
                ||| c == '-'
            },
        forall|n2: Seq<char>, v2: Option<Seq<char>>|
            #[trigger] well_formed_option(n2, v2) && option_text(n2, v2) == seq!['-', '-'] + name
                + seq!['='] + value ==> n2 == name && v2 == Some(value),
{
    let arg = seq!['-', '-'] + name + seq!['='] + value;
    assert(arg =~= option_text(name, Some(value)));
    assert(option_name(name));
    assert forall|n2: Seq<char>, v2: Option<Seq<char>>|
        #[trigger] well_formed_option(n2, v2) && option_text(n2, v2) == arg implies n2 == name && v2
        == Some(value) by {
        lemma_option_text_parts(name, value, n2, v2);
    }
    if option_value(value) {
        assert(well_formed_option(name, Some(value)));
    }
    if is_option_text(arg) {
        let (n2, v2) = choose|n2: Seq<char>, v2: Option<Seq<char>>|
            #[trigger] well_formed_option(n2, v2) && arg == option_text(n2, v2);
        lemma_option_text_parts(name, value, n2, v2);
        assert(option_value(value));
    }
}

/// The values of the `layout` option (also `l`): `row` and its short form `r` select
/// the row-major layout, `col` and its short form `c` the column-major one, from any
/// settings where no layout was given yet; a value that selects row-major is `row` or
/// `r`, one that selects column-major is `col` or `c`.
pub proof fn lemma_layout_values(c: OptionSettings, name: Seq<char>, v: Seq<char>)
    requires
        c.layout is None,
        name == "layout"@ || name == "l"@,
    ensures
        option_step(c, option_text(name, Some("row"@))) == Some(
            OptionSettings { layout: Some(MatrixLayout::RowMajor), ..c },
        ),
        option_step(c, option_text(name, Some("r"@))) == Some(
            OptionSettings { layout: Some(MatrixLayout::RowMajor), ..c },
        ),
        option_step(c, option_text(name, Some("col"@))) == Some(
            OptionSettings { layout: Some(MatrixLayout::ColMajor), ..c },
        ),
        option_step(c, option_text(name, Some("c"@))) == Some(
            OptionSettings { layout: Some(MatrixLayout::ColMajor), ..c },
        ),
        option_step(c, option_text(name, Some(v))) == Some(
            OptionSettings { layout: Some(MatrixLayout::RowMajor), ..c },
        ) ==> v == "row"@ || v == "r"@,
        option_step(c, option_text(name, Some(v))) == Some(
            OptionSettings { layout: Some(MatrixLayout::ColMajor), ..c },
        ) ==> v == "col"@ || v == "c"@,
{
    reveal_strlit("layout");
    reveal_strlit("l");
    reveal_strlit("nthreads");
    reveal_strlit("nt");
    reveal_strlit("row");
    reveal_strlit("r");
    reveal_strlit("col");
    reveal_strlit("c");
    assert(option_name(name));
    assert(option_value("row"@) && option_value("r"@) && option_value("col"@) && option_value("c"@));
    assert(name != "nthreads"@ && name != "nt"@);
    assert("row"@[0] != "col"@[0] && "r"@[0] != "c"@[0]);
    assert("row"@.len() != "c"@.len() && "r"@.len() != "col"@.len());
    assert forall|w: Seq<char>| option_value(w) implies option_step(c, option_text(name, Some(w)))
        == apply_option(c, name, Some(w)) by {
        let arg = option_text(name, Some(w));
        assert(well_formed_option(name, Some(w)));
        let (n2, v2) = choose|n2: Seq<char>, v2: Option<Seq<char>>|
            #[trigger] well_formed_option(n2, v2) && arg == option_text(n2, v2);
        lemma_option_text_parts(name, w, n2, v2);
    }
    if option_step(c, option_text(name, Some(v))) is Some {
        let arg = option_text(name, Some(v));
        assert(is_option_text(arg));
        let (n2, v2) = choose|n2: Seq<char>, v2: Option<Seq<char>>|
            #[trigger] well_formed_option(n2, v2) && arg == option_text(n2, v2);
        lemma_option_text_parts(name, v, n2, v2);
        assert(option_step(c, arg) == apply_option(c, name, Some(v)));
    }
}

} // verus!
