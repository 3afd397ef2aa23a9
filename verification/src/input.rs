//! Scan configuration: option and config-file values, and their merge rules.
use vstd::prelude::*;
use vstd::slice::slice_subrange;
use vstd::string::StringSliceAdditionalSpecFns;

verus! {

pub const LOWEST_PORT_NUMBER: u16 = 1;

pub const TOP_PORT_NUMBER: u16 = 65535;

/// The order in which the ports of a range are probed.
///   - Serial runs from start to end, for example 1 to 1_000.
///   - Random probes the same ports in a randomized order.
#[derive(Debug, Clone, Copy, PartialEq, Eq, Structural)]
pub enum ScanOrder {
    Serial,
    Random,
}

/// Which scripts run on the scan results.
///   - NoScripts: no script runs, only the port scan results are shown.
///   - Default: the embedded default script runs.
///   - Custom: scripts found in the user's script folder run, filtered by tags.
#[derive(Debug, Clone, Copy, PartialEq, Eq, Structural)]
pub enum ScriptsRequired {
    NoScripts,
    Default,
    Custom,
}

/// An inclusive range of ports to be scanned.
#[derive(Debug, Clone, Copy, PartialEq, Eq, Structural)]
pub struct PortRange {
    pub start: u16,
    pub end: u16,
}

/// Whether a byte is an ASCII decimal digit.
pub open spec fn is_digit_byte(b: u8) -> bool {
    48 <= b <= 57
}

/// Whether every byte of `s` is an ASCII decimal digit.
pub open spec fn all_digit_bytes(s: Seq<u8>) -> bool {
    forall|i: int| 0 <= i < s.len() ==> is_digit_byte(#[trigger] s[i])
}

/// The value of a sequence of ASCII decimal digits, most significant first.
pub open spec fn digits_value(s: Seq<u8>) -> int
    decreases s.len(),
{
    if s.len() == 0 {
        0
    } else {
        digits_value(s.drop_last()) * 10 + (s.last() - 48)
    }
}

/// What a sequence of bytes denotes as a u16 written in decimal:
/// at least one digit, digits only, and a value of at most 65535.
pub open spec fn spec_parse_u16(s: Seq<u8>) -> Option<u16> {
    if s.len() > 0 && all_digit_bytes(s) && digits_value(s) <= 65535 {
        Some(digits_value(s) as u16)
    } else {
        None
    }
}

/// A digit appended on the right can only grow the value of a digit string.
proof fn lemma_digits_value_grows(s: Seq<u8>, n: int)
    requires
        0 <= n <= s.len(),
        all_digit_bytes(s),
    ensures
        digits_value(s.subrange(0, n)) <= digits_value(s),
        digits_value(s) >= 0,
    decreases s.len(),
{
    if s.len() == 0 {
    } else {
        lemma_digits_value_grows(s.drop_last(), if n < s.len() { n } else { n - 1 });
        if n < s.len() {
            assert(s.subrange(0, n) =~= s.drop_last().subrange(0, n));
        } else {
            assert(s.subrange(0, n) =~= s);
        }
    }
}

/// Parse an ASCII decimal u16 from bytes, exactly as `spec_parse_u16` says.
pub fn parse_u16_bytes(s: &[u8]) -> (r: Option<u16>)
    ensures
        r == spec_parse_u16(s@),
{
    if s.len() == 0 {
        return None;
    }
    let mut acc: u32 = 0;
    let mut i: usize = 0;
    while i < s.len()
        invariant
            0 <= i <= s@.len(),
            all_digit_bytes(s@.subrange(0, i as int)),
            acc == digits_value(s@.subrange(0, i as int)),
            acc <= 65535,
        decreases s@.len() - i,
    {
        let b = s[i];
        if b < 48 || b > 57 {
            assert(!all_digit_bytes(s@)) by {
                assert(s@[i as int] == b);
            }
            return None;
        }
        proof {
            assert(s@.subrange(0, i + 1).drop_last() =~= s@.subrange(0, i as int));
        }
        acc = acc * 10 + (b - 48) as u32;
        i = i + 1;
        if acc > 65535 {
            assert(spec_parse_u16(s@) is None) by {
                if all_digit_bytes(s@) {
                    lemma_digits_value_grows(s@, i as int);
                }
            }
            return None;
        }
    }
    proof {
        assert(s@.subrange(0, s@.len() as int) =~= s@);
    }
    Some(acc as u16)
}

/// Whether `k` is the position of the one and only `-` in `s`.
pub open spec fn is_the_dash(s: Seq<u8>, k: int) -> bool {
    &&& 0 <= k < s.len()
    &&& s[k] == 45
    &&& forall|j: int| 0 <= j < s.len() && s[j] == 45 ==> j == k
}

/// What a range argument denotes: bytes of the form `start-end`, with both
/// sides decimal u16 values and exactly one `-` between them.
pub open spec fn spec_parse_range(s: Seq<u8>) -> Option<PortRange> {
    if exists|k: int| is_the_dash(s, k) {
        let k = choose|k: int| is_the_dash(s, k);
        match (spec_parse_u16(s.subrange(0, k)), spec_parse_u16(s.subrange(k + 1, s.len() as int))) {
            (Some(start), Some(end)) => Some(PortRange { start, end }),
            _ => None,
        }
    } else {
        None
    }
}

/// Parse a `start-end` port range as the command line takes it.
/// Returns the error message the user sees when the form is wrong.
pub fn parse_range(input: &str) -> (r: Result<PortRange, String>)
    ensures
        match r {
            Ok(pr) => spec_parse_range(input.spec_bytes()) == Some(pr),
            Err(_) => spec_parse_range(input.spec_bytes()) is None,
        },
{
    let s = input.as_bytes();
    let ghost sq = s@;
    let mut dash: usize = 0;
    let mut found: bool = false;
    let mut i: usize = 0;
    while i < s.len()
        invariant
            0 <= i <= sq.len(),
            s@ == sq,
            sq == input.spec_bytes(),
            found ==> 0 <= dash < i && sq[dash as int] == 45,
            found ==> forall|j: int| 0 <= j < i && sq[j] == 45 ==> j == dash,
            !found ==> forall|j: int| 0 <= j < i ==> sq[j] != 45,
        decreases sq.len() - i,
    {
        if s[i] == 45 {
            if found {
                // a second separator: no position can be the only dash
                assert forall|k: int| !is_the_dash(sq, k) by {
                    if is_the_dash(sq, k) {
                        assert(sq[dash as int] == 45);
                        assert(sq[i as int] == 45);
                        assert(dash as int == k);
                        assert(i as int == k);
                    }
                }
                return Err(range_format_error());
            }
            dash = i;
            found = true;
        }
        i = i + 1;
    }
    if !found {
        assert(forall|k: int| !is_the_dash(sq, k));
        return Err(range_format_error());
    }
    assert(is_the_dash(sq, dash as int));
    proof {
        let k = choose|k: int| is_the_dash(sq, k);
        assert(k == dash as int);
    }
    let left = slice_subrange(s, 0, dash);
    let right = slice_subrange(s, dash + 1, s.len());
    let start = parse_u16_bytes(left);
    let end = parse_u16_bytes(right);
    match (start, end) {
        (Some(start), Some(end)) => Ok(PortRange { start, end }),
        _ => Err(range_format_error()),
    }
}

/// The message returned for a malformed range argument.
fn range_format_error() -> String {
    "the range format must be 'start-end'. Example: 1-1000.".to_owned()
}

/// The scan options, as the command line and the config file leave them.
#[derive(Debug, Clone)]
pub struct Opts {
    pub addresses: Vec<String>,
    pub ports: Option<Vec<u16>>,
    pub range: Option<PortRange>,
    pub no_config: bool,
    pub no_banner: bool,
    pub config_path: Option<String>,
    pub greppable: bool,
    pub accessible: bool,
    pub resolver: Option<String>,
    pub batch_size: u16,
    pub timeout: u32,
    pub tries: u8,
    pub ulimit: Option<u64>,
    pub scan_order: ScanOrder,
    pub scripts: ScriptsRequired,
    pub top: bool,
    pub command: Vec<String>,
    pub exclude_ports: Option<Vec<u16>>,
    pub exclude_addresses: Option<Vec<String>>,
    pub udp: bool,
}

/// The value a config entry leaves on an option: the entry where it is set,
/// the earlier value where it is not.
pub open spec fn merged<T>(c: Option<T>, base: T) -> T {
    match c {
        Some(v) => v,
        None => base,
    }
}

/// The value a config entry leaves on an option that may itself be absent.
pub open spec fn merged_opt<T>(c: Option<T>, base: Option<T>) -> Option<T> {
    if c is Some {
        c
    } else {
        base
    }
}

impl Default for Opts {
    /// The neutral option set: no addresses, no ports, greppable, config ignored.
    fn default() -> (r: Self)
        ensures
            r.addresses@ =~= Seq::<String>::empty(),
            r.ports is None,
            r.range is None,
            r.greppable == true,
            r.batch_size == 0,
            r.timeout == 0,
            r.tries == 0,
            r.ulimit is None,
            r.command@ =~= Seq::<String>::empty(),
            r.accessible == false,
            r.resolver is None,
            r.scan_order == ScanOrder::Serial,
            r.no_config == true,
            r.no_banner == false,
            r.top == false,
            r.scripts == ScriptsRequired::Default,
            r.config_path is None,
            r.exclude_ports is None,
            r.exclude_addresses is None,
            r.udp == false,
    {
        Self {
            addresses: Vec::new(),
            ports: None,
            range: None,
            greppable: true,
            batch_size: 0,
            timeout: 0,
            tries: 0,
            ulimit: None,
            command: Vec::new(),
            accessible: false,
            resolver: None,
            scan_order: ScanOrder::Serial,
            no_config: true,
            no_banner: false,
            top: false,
            scripts: ScriptsRequired::Default,
            config_path: None,
            exclude_ports: None,
            exclude_addresses: None,
            udp: false,
        }
    }
}

/// The values read from the user's config file. Every option is optional;
/// `ports` holds the port numbers of the top-ports catalogue.
#[derive(Debug, Clone)]
pub struct Config {
    pub addresses: Option<Vec<String>>,
    pub ports: Option<Vec<u16>>,
    pub range: Option<PortRange>,
    pub greppable: Option<bool>,
    pub accessible: Option<bool>,
    pub batch_size: Option<u16>,
    pub timeout: Option<u32>,
    pub tries: Option<u8>,
    pub ulimit: Option<u64>,
    pub resolver: Option<String>,
    pub scan_order: Option<ScanOrder>,
    pub command: Option<Vec<String>>,
    pub scripts: Option<ScriptsRequired>,
    pub exclude_ports: Option<Vec<u16>>,
    pub exclude_addresses: Option<Vec<String>>,
    pub udp: Option<bool>,
}

impl Opts {
    /// Merge config-file values into the options, unless the config is ignored.
    #[verifier::rlimit(50)]
    pub fn merge(&mut self, config: &Config)
        ensures
            old(self).no_config ==> *final(self) == *old(self),
            !old(self).no_config ==> {
                &&& final(self).addresses@ == (match config.addresses {
                    Some(a) => a@,
                    None => old(self).addresses@,
                })
                &&& final(self).greppable == merged(config.greppable, old(self).greppable)
                &&& final(self).accessible == merged(config.accessible, old(self).accessible)
                &&& final(self).batch_size == merged(config.batch_size, old(self).batch_size)
                &&& final(self).timeout == merged(config.timeout, old(self).timeout)
                &&& final(self).tries == merged(config.tries, old(self).tries)
                &&& final(self).scan_order == merged(config.scan_order, old(self).scan_order)
                &&& final(self).scripts == merged(config.scripts, old(self).scripts)
                &&& final(self).command@ == (match config.command {
                    Some(c) => c@,
                    None => old(self).command@,
                })
                &&& final(self).udp == merged(config.udp, old(self).udp)
                &&& if old(self).top && config.ports is Some {
                    final(self).ports matches Some(p) && p@ == config.ports->Some_0@
                } else {
                    final(self).ports == old(self).ports
                }
                &&& final(self).range == merged_opt(config.range, old(self).range)
                &&& final(self).resolver == merged_opt(config.resolver, old(self).resolver)
                &&& final(self).ulimit == merged_opt(config.ulimit, old(self).ulimit)
                &&& match config.exclude_ports {
                    Some(c) => final(self).exclude_ports matches Some(p) && p@ == c@,
                    None => final(self).exclude_ports == old(self).exclude_ports,
                }
                &&& match config.exclude_addresses {
                    Some(c) => final(self).exclude_addresses matches Some(p) && p@ == c@,
                    None => final(self).exclude_addresses == old(self).exclude_addresses,
                }
                &&& final(self).no_config == old(self).no_config
                &&& final(self).no_banner == old(self).no_banner
                &&& final(self).config_path == old(self).config_path
                &&& final(self).top == old(self).top
            },
    {
        if !self.no_config {
            self.merge_required(config);
            self.merge_optional(config);
        }
    }

    /// Merge the options that always have a value.
    #[verifier::rlimit(100)]
    pub fn merge_required(&mut self, config: &Config)
        ensures
            final(self).addresses@ == (match config.addresses {
                Some(a) => a@,
                None => old(self).addresses@,
            }),
            final(self).greppable == merged(config.greppable, old(self).greppable),
            final(self).accessible == merged(config.accessible, old(self).accessible),
            final(self).batch_size == merged(config.batch_size, old(self).batch_size),
            final(self).timeout == merged(config.timeout, old(self).timeout),
            final(self).tries == merged(config.tries, old(self).tries),
            final(self).scan_order == merged(config.scan_order, old(self).scan_order),
            final(self).scripts == merged(config.scripts, old(self).scripts),
            final(self).command@ == (match config.command {
                Some(c) => c@,
                None => old(self).command@,
            }),
            final(self).udp == merged(config.udp, old(self).udp),
            final(self).ports == old(self).ports,
            final(self).range == old(self).range,
            final(self).no_config == old(self).no_config,
            final(self).no_banner == old(self).no_banner,
            final(self).config_path == old(self).config_path,
            final(self).resolver == old(self).resolver,
            final(self).ulimit == old(self).ulimit,
            final(self).exclude_ports == old(self).exclude_ports,
            final(self).exclude_addresses == old(self).exclude_addresses,
            final(self).top == old(self).top,
    {
        if let Some(e) = &config.addresses {
            self.addresses = e.clone();
            proof {
                assert(self.addresses@ =~= config.addresses.unwrap()@);
            }
        }
        self.greppable = if let Some(e) = config.greppable { e } else { self.greppable };
        self.accessible = if let Some(e) = config.accessible { e } else { self.accessible };
        self.batch_size = if let Some(e) = config.batch_size { e } else { self.batch_size };
        self.timeout = if let Some(e) = config.timeout { e } else { self.timeout };
        self.tries = if let Some(e) = config.tries { e } else { self.tries };
        self.scan_order = if let Some(e) = config.scan_order { e } else { self.scan_order };
        self.scripts = if let Some(e) = config.scripts { e } else { self.scripts };
        if let Some(e) = &config.command {
            self.command = e.clone();
            proof {
                assert(self.command@ =~= config.command.unwrap()@);
            }
        }
        self.udp = if let Some(e) = config.udp { e } else { self.udp };
    }

    /// Merge the options that may stay absent; the top-ports catalogue fills
    /// `ports` only when the user asked for the top ports.
    #[verifier::rlimit(100)]
    pub fn merge_optional(&mut self, config: &Config)
        ensures
            if old(self).top && config.ports is Some {
                final(self).ports matches Some(p) && p@ == config.ports->Some_0@
            } else {
                final(self).ports == old(self).ports
            },
            final(self).range == merged_opt(config.range, old(self).range),
            final(self).resolver == merged_opt(config.resolver, old(self).resolver),
            final(self).ulimit == merged_opt(config.ulimit, old(self).ulimit),
            match config.exclude_ports {
                Some(c) => final(self).exclude_ports matches Some(p) && p@ == c@,
                None => final(self).exclude_ports == old(self).exclude_ports,
            },
            match config.exclude_addresses {
                Some(c) => final(self).exclude_addresses matches Some(p) && p@ == c@,
                None => final(self).exclude_addresses == old(self).exclude_addresses,
            },
            final(self).addresses == old(self).addresses,
            final(self).greppable == old(self).greppable,
            final(self).accessible == old(self).accessible,
            final(self).batch_size == old(self).batch_size,
            final(self).timeout == old(self).timeout,
            final(self).tries == old(self).tries,
            final(self).scan_order == old(self).scan_order,
            final(self).scripts == old(self).scripts,
            final(self).command == old(self).command,
            final(self).udp == old(self).udp,
            final(self).no_config == old(self).no_config,
            final(self).no_banner == old(self).no_banner,
            final(self).config_path == old(self).config_path,
            final(self).top == old(self).top,
    {
        // Only use top ports when the user asks for them
        if self.top && config.ports.is_some() {
            self.ports = config.ports.clone();
            proof {
                assert(self.ports.unwrap()@ =~= config.ports.unwrap()@);
            }
        }
        if config.range.is_some() {
            self.range = config.range.clone();
        }
        if config.resolver.is_some() {
            self.resolver = config.resolver.clone();
        }
        if config.ulimit.is_some() {
            self.ulimit = config.ulimit.clone();
        }
        if config.exclude_ports.is_some() {
            self.exclude_ports = config.exclude_ports.clone();
            proof {
                assert(self.exclude_ports.unwrap()@ =~= config.exclude_ports.unwrap()@);
            }
        }
        if config.exclude_addresses.is_some() {
            self.exclude_addresses = config.exclude_addresses.clone();
            proof {
                assert(self.exclude_addresses.unwrap()@ =~= config.exclude_addresses.unwrap()@);
            }
        }
    }

    /// Give the port selection its default: the full range when neither an
    /// explicit list nor a range was set.
    pub fn with_default_range(&mut self)
        ensures
            final(self).range == if old(self).ports is None && old(self).range is None {
                Some(PortRange { start: LOWEST_PORT_NUMBER, end: TOP_PORT_NUMBER })
            } else {
                old(self).range
            },
            final(self).ports == old(self).ports,
            final(self).addresses == old(self).addresses,
            final(self).greppable == old(self).greppable,
            final(self).accessible == old(self).accessible,
            final(self).batch_size == old(self).batch_size,
            final(self).timeout == old(self).timeout,
            final(self).tries == old(self).tries,
            final(self).scan_order == old(self).scan_order,
            final(self).scripts == old(self).scripts,
            final(self).command == old(self).command,
            final(self).udp == old(self).udp,
            final(self).no_config == old(self).no_config,
            final(self).no_banner == old(self).no_banner,
            final(self).config_path == old(self).config_path,
            final(self).resolver == old(self).resolver,
            final(self).ulimit == old(self).ulimit,
            final(self).exclude_ports == old(self).exclude_ports,
            final(self).exclude_addresses == old(self).exclude_addresses,
            final(self).top == old(self).top,
    {
        if self.ports.is_none() && self.range.is_none() {
            self.range = Some(PortRange { start: LOWEST_PORT_NUMBER, end: TOP_PORT_NUMBER });
        }
    }
}

} // verus!
