use vstd::prelude::*;
use crate::cli::{texts, Args};

verus! {

/// The character of a decimal digit.
pub open spec fn digit_char(d: nat) -> char {
    if d == 0 {
        '0'
    } else if d == 1 {
        '1'
    } else if d == 2 {
        '2'
    } else if d == 3 {
        '3'
    } else if d == 4 {
        '4'
    } else if d == 5 {
        '5'
    } else if d == 6 {
        '6'
    } else if d == 7 {
        '7'
    } else if d == 8 {
        '8'
    } else {
        '9'
    }
}

/// A number written in decimal, without leading zeros.
pub open spec fn decimal(n: nat) -> Seq<char>
    decreases n,
{
    if n < 10 {
        seq![digit_char(n)]
    } else {
        decimal(n / 10).push(digit_char(n % 10))
    }
}

/// A rule of `n` box-drawing dashes.
pub open spec fn rule(n: nat) -> Seq<char> {
    Seq::new(n, |i: int| '─')
}

/// "yes" or "no".
pub open spec fn yes_no(b: bool) -> Seq<char> {
    if b {
        "yes"@
    } else {
        "no"@
    }
}

/// The titles of the columns of the per-second lines.
pub open spec fn column_titles() -> Seq<char> {
    "  t(s)           req/s       2xx/s    errors/s        MB/s    ~latency"@
}

/// The lines printed before a run, none in JSON mode: the version, the
/// target, the connections, the duration, the rate and ramp when set, HTTP/2,
/// and the titles of the per-second columns under a rule.
pub open spec fn header_text(args: Args, version: Seq<char>) -> Seq<Seq<char>> {
    if args.json {
        Seq::empty()
    } else {
        seq![
            Seq::empty(),
            "  httpmark v"@ + version,
            "  URL          : "@ + args.url@,
            "  Connections  : "@ + decimal(args.connections as nat),
            "  Duration     : "@ + decimal(args.duration as nat) + "s"@,
        ] + (if args.qps > 0 {
            seq!["  Target QPS   : "@ + decimal(args.qps as nat)]
        } else {
            Seq::empty()
        }) + (if args.ramp > 0 {
            seq!["  Ramp         : "@ + decimal(args.ramp as nat) + "s"@]
        } else {
            Seq::empty()
        }) + seq![
            "  HTTP/2       : "@ + yes_no(args.http2),
            Seq::empty(),
            column_titles(),
            "  "@ + rule(72),
        ]
    }
}

/// The lines printed before two runs compared side by side.
pub open spec fn compare_header_text(a: Args, b: Args, version: Seq<char>) -> Seq<Seq<char>> {
    seq![
        Seq::empty(),
        "  httpmark v"@ + version + "  —  COMPARE MODE"@,
        "  A : "@ + a.url@,
        "  B : "@ + b.url@,
        "  Connections per target : "@ + decimal(a.connections as nat),
        "  Duration               : "@ + decimal(a.duration as nat) + "s"@,
    ] + (if a.qps > 0 {
        seq!["  Target QPS             : "@ + decimal(a.qps as nat)]
    } else {
        Seq::empty()
    }) + seq![
        "  HTTP/2                 : "@ + yes_no(a.http2),
        Seq::empty(),
        "  Running both benchmarks in parallel..."@,
        Seq::empty(),
    ]
}

/// The value of a string of decimal digits.
pub open spec fn digits_value(s: Seq<char>) -> int
    decreases s.len(),
{
    if s.len() == 0 {
        0
    } else {
        digits_value(s.drop_last()) * 10 + (s.last() as u32 - '0' as u32)
    }
}

proof fn lemma_digit_char(d: nat)
    requires
        d < 10,
    ensures
        digit_char(d) as u32 == '0' as u32 + d,
        '0' <= digit_char(d) <= '9',
        d > 0 ==> digit_char(d) != '0',
{
}

/// A number is written with decimal digits only, reads back as itself, and
/// has no leading zero.
pub proof fn law_decimal_reads_back(n: nat)
    ensures
        forall|k: int| 0 <= k < decimal(n).len() ==> '0' <= #[trigger] decimal(n)[k] <= '9',
        digits_value(decimal(n)) == n,
        decimal(n).len() >= 1,
        n > 0 ==> decimal(n)[0] != '0',
    decreases n,
{
    if n >= 10 {
        law_decimal_reads_back(n / 10);
        lemma_digit_char(n % 10);
        let d = decimal(n);
        assert(d.drop_last() =~= decimal(n / 10));
        assert(forall|k: int| 0 <= k < d.len() - 1 ==> d[k] == decimal(n / 10)[k]);
        assert(digits_value(d) == digits_value(decimal(n / 10)) * 10 + (n % 10));
        assert((n / 10) * 10 + n % 10 == n);
    } else {
        lemma_digit_char(n);
        assert(decimal(n).drop_last() =~= Seq::<char>::empty());
        reveal_with_fuel(digits_value, 2);
    }
}

/// A rule of `n` is `n` box-drawing dashes.
pub proof fn law_rule_is_dashes(n: nat)
    ensures
        rule(n).len() == n,
        forall|k: int| 0 <= k < n ==> #[trigger] rule(n)[k] == '─',
{
}

/// The header is printed unless the output is JSON, whatever the other
/// settings: it opens with an empty line and the version, names the URL, the
/// connections and the duration, shows the rate and the ramp when set, tells
/// whether HTTP/2 is forced, and closes with the column titles over a rule.
pub proof fn law_header_shown_unless_json(args: Args, version: Seq<char>)
    ensures
        header_text(args, version).len() == 0 <==> args.json,
        !args.json ==> {
            let t = header_text(args, version);
            let n = t.len();
            let q: int = if args.qps > 0 { 1 } else { 0 };
            let r: int = if args.ramp > 0 { 1 } else { 0 };
            &&& n == 9 + q + r
            &&& t[0] == Seq::<char>::empty()
            &&& t[1] == "  httpmark v"@ + version
            &&& t[2] == "  URL          : "@ + args.url@
            &&& t[3] == "  Connections  : "@ + decimal(args.connections as nat)
            &&& t[4] == "  Duration     : "@ + decimal(args.duration as nat) + "s"@
            &&& args.qps > 0 ==> t[5] == "  Target QPS   : "@ + decimal(args.qps as nat)
            &&& args.ramp > 0 ==> t[5 + q] == "  Ramp         : "@ + decimal(args.ramp as nat)
                + "s"@
            &&& t[5 + q + r] == "  HTTP/2       : "@ + (if args.http2 {
                "yes"@
            } else {
                "no"@
            })
            &&& t[6 + q + r] == Seq::<char>::empty()
            &&& t[7 + q + r] == column_titles()
            &&& t[8 + q + r] == "  "@ + rule(72)
        },
{
}

/// The comparison header names both targets and gives the first one's
/// connections, duration, rate when set and HTTP/2 setting; it is printed
/// whatever the output mode.
pub proof fn law_compare_header_names_both(a: Args, b: Args, version: Seq<char>)
    ensures
        ({
            let t = compare_header_text(a, b, version);
            let q: int = if a.qps > 0 { 1 } else { 0 };
            &&& t.len() == 10 + q
            &&& t[0] == Seq::<char>::empty()
            &&& t[1] == "  httpmark v"@ + version + "  —  COMPARE MODE"@
            &&& t[2] == "  A : "@ + a.url@
            &&& t[3] == "  B : "@ + b.url@
            &&& t[4] == "  Connections per target : "@ + decimal(a.connections as nat)
            &&& t[5] == "  Duration               : "@ + decimal(a.duration as nat) + "s"@
            &&& a.qps > 0 ==> t[6] == "  Target QPS             : "@ + decimal(a.qps as nat)
            &&& t[6 + q] == "  HTTP/2                 : "@ + (if a.http2 {
                "yes"@
            } else {
                "no"@
            })
            &&& t[7 + q] == Seq::<char>::empty()
            &&& t[8 + q] == "  Running both benchmarks in parallel..."@
            &&& t[9 + q] == Seq::<char>::empty()
        }),
{
}

fn digit_text(d: u64) -> (s: &'static str)
    requires
        d < 10,
    ensures
        s@ == seq![digit_char(d as nat)],
{
    proof {
        reveal_strlit("0");
        reveal_strlit("1");
        reveal_strlit("2");
        reveal_strlit("3");
        reveal_strlit("4");
        reveal_strlit("5");
        reveal_strlit("6");
        reveal_strlit("7");
        reveal_strlit("8");
        reveal_strlit("9");
    }
    if d == 0 {
        "0"
    } else if d == 1 {
        "1"
    } else if d == 2 {
        "2"
    } else if d == 3 {
        "3"
    } else if d == 4 {
        "4"
    } else if d == 5 {
        "5"
    } else if d == 6 {
        "6"
    } else if d == 7 {
        "7"
    } else if d == 8 {
        "8"
    } else {
        "9"
    }
}

/// A number written in decimal.
pub fn decimal_text(n: u64) -> (s: String)
    ensures
        s@ == decimal(n as nat),
    decreases n,
{
    if n < 10 {
        String::from_str(digit_text(n))
    } else {
        let mut s = decimal_text(n / 10);
        s.append(digit_text(n % 10));
        proof {
            assert(s@ =~= decimal((n / 10) as nat).push(digit_char((n % 10) as nat)));
        }
        s
    }
}

/// A rule of `n` box-drawing dashes.
pub fn rule_text(n: usize) -> (s: String)
    ensures
        s@ == rule(n as nat),
{
    let mut s = String::new();
    proof {
        reveal_strlit("─");
    }
    for i in 0..n
        invariant
            s@ == rule(i as nat),
            "─"@ == seq!['─'],
    {
        s.append("─");
        proof {
            assert(s@ =~= rule((i + 1) as nat));
        }
    }
    s
}

fn yes_no_text(b: bool) -> (s: String)
    ensures
        s@ == yes_no(b),
{
    if b {
        String::from_str("yes")
    } else {
        String::from_str("no")
    }
}

fn line(prefix: &str, value: &str) -> (s: String)
    ensures
        s@ == prefix@ + value@,
{
    String::from_str(prefix).concat(value)
}

impl Args {
    /// The lines printed before a run.
    pub fn header_lines(&self, version: &str) -> (lines: Vec<String>)
        ensures
            texts(lines@) == header_text(*self, version@),
    {
        let mut lines: Vec<String> = Vec::new();
        if self.json {
            proof {
                assert(texts(lines@) =~= header_text(*self, version@));
            }
            return lines;
        }
        let ghost mut expected: Seq<Seq<char>> = seq![];
        lines.push(String::new());
        lines.push(line("  httpmark v", version));
        lines.push(line("  URL          : ", self.url.as_str()));
        lines.push(line("  Connections  : ", decimal_text(self.connections as u64).as_str()));
        lines.push(line("  Duration     : ", decimal_text(self.duration).as_str()).concat("s"));
        proof {
            expected = seq![
                Seq::empty(),
                "  httpmark v"@ + version@,
                "  URL          : "@ + self.url@,
                "  Connections  : "@ + decimal(self.connections as nat),
                "  Duration     : "@ + decimal(self.duration as nat) + "s"@,
            ];
            assert(texts(lines@) =~= expected);
        }
        if self.qps > 0 {
            lines.push(line("  Target QPS   : ", decimal_text(self.qps).as_str()));
            proof {
                expected = expected + seq!["  Target QPS   : "@ + decimal(self.qps as nat)];
                assert(texts(lines@) =~= expected);
            }
        } else {
            proof {
                expected = expected + Seq::<Seq<char>>::empty();
                assert(texts(lines@) =~= expected);
            }
        }
        if self.ramp > 0 {
            lines.push(line("  Ramp         : ", decimal_text(self.ramp).as_str()).concat("s"));
            proof {
                expected = expected + seq!["  Ramp         : "@ + decimal(self.ramp as nat) + "s"@];
                assert(texts(lines@) =~= expected);
            }
        } else {
            proof {
                expected = expected + Seq::<Seq<char>>::empty();
                assert(texts(lines@) =~= expected);
            }
        }
        lines.push(line("  HTTP/2       : ", yes_no_text(self.http2).as_str()));
        lines.push(String::new());
        lines.push(String::from_str(
            "  t(s)           req/s       2xx/s    errors/s        MB/s    ~latency",
        ));
        lines.push(line("  ", rule_text(72).as_str()));
        proof {
            expected = expected + seq![
                "  HTTP/2       : "@ + yes_no(self.http2),
                Seq::empty(),
                column_titles(),
                "  "@ + rule(72),
            ];
            assert(texts(lines@) =~= expected);
        }
        lines
    }
}

/// The lines printed before two runs compared side by side.
pub fn compare_header_lines(a: &Args, b: &Args, version: &str) -> (lines: Vec<String>)
    ensures
        texts(lines@) == compare_header_text(*a, *b, version@),
{
    let mut lines: Vec<String> = Vec::new();
    let ghost mut expected: Seq<Seq<char>> = seq![];
    lines.push(String::new());
    lines.push(line("  httpmark v", version).concat("  —  COMPARE MODE"));
    lines.push(line("  A : ", a.url.as_str()));
    lines.push(line("  B : ", b.url.as_str()));
    lines.push(line("  Connections per target : ", decimal_text(a.connections as u64).as_str()));
    lines.push(line("  Duration               : ", decimal_text(a.duration).as_str()).concat("s"));
    proof {
        expected = seq![
            Seq::empty(),
            "  httpmark v"@ + version@ + "  —  COMPARE MODE"@,
            "  A : "@ + a.url@,
            "  B : "@ + b.url@,
            "  Connections per target : "@ + decimal(a.connections as nat),
            "  Duration               : "@ + decimal(a.duration as nat) + "s"@,
        ];
        assert(texts(lines@) =~= expected);
    }
    if a.qps > 0 {
        lines.push(line("  Target QPS             : ", decimal_text(a.qps).as_str()));
        proof {
            expected = expected + seq!["  Target QPS             : "@ + decimal(a.qps as nat)];
            assert(texts(lines@) =~= expected);
        }
    } else {
        proof {
            expected = expected + Seq::<Seq<char>>::empty();
            assert(texts(lines@) =~= expected);
        }
    }
    lines.push(line("  HTTP/2                 : ", yes_no_text(a.http2).as_str()));
    lines.push(String::new());
    lines.push(String::from_str("  Running both benchmarks in parallel..."));
    lines.push(String::new());
    proof {
        expected = expected + seq![
            "  HTTP/2                 : "@ + yes_no(a.http2),
            Seq::empty(),
            "  Running both benchmarks in parallel..."@,
            Seq::empty(),
        ];
        assert(texts(lines@) =~= expected);
    }
    lines
}

} // verus!
