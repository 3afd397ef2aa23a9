//! The data behind the scripting engine: which scripts a run selects, and
//! the port text handed to a script's command line.
//!
//! Reading script files, parsing their headers, filling call templates and
//! spawning processes is the unverified surroundings' work; this module
//! holds the script data and the decisions over it.
use crate::benchmark::{append_decimal, decimal_chars};
use vstd::prelude::*;
use vstd::string::StringExecFns;

verus! {

/// One script as its file describes it: where it lives, the tags that
/// select it, its developers, an optional trigger port, the separator for
/// the port list, and the command line to run it with.
#[derive(Debug, Clone)]
pub struct ScriptFile {
    pub path: Option<String>,
    pub tags: Option<Vec<String>>,
    pub developer: Option<Vec<String>>,
    pub port: Option<String>,
    pub ports_separator: Option<String>,
    pub call_format: Option<String>,
}

/// The user's script configuration: the tags a script must carry to be
/// selected, and optional port and developer filters.
#[derive(Debug, Clone)]
pub struct ScriptConfig {
    pub tags: Option<Vec<String>>,
    pub ports: Option<Vec<String>>,
    pub developer: Option<Vec<String>>,
}

/// One script call, bound to a scanned address and its open ports.
#[derive(Debug, Clone)]
pub struct Script {
    pub path: Option<String>,
    pub ip: String,
    pub open_ports: Vec<u16>,
    pub trigger_port: Option<String>,
    pub ports_separator: Option<String>,
    pub tags: Option<Vec<String>>,
    pub call_format: Option<String>,
}

impl Script {
    /// Bind a script file's call data to one scanned address.
    pub fn build(
        path: Option<String>,
        ip: String,
        open_ports: Vec<u16>,
        trigger_port: Option<String>,
        ports_separator: Option<String>,
        tags: Option<Vec<String>>,
        call_format: Option<String>,
    ) -> (r: Self)
        ensures
            r.path == path,
            r.ip == ip,
            r.open_ports == open_ports,
            r.trigger_port == trigger_port,
            r.ports_separator == ports_separator,
            r.tags == tags,
            r.call_format == call_format,
    {
        Self { path, ip, open_ports, trigger_port, ports_separator, tags, call_format }
    }
}

/// Whether a tag list holds a tag with this text.
pub open spec fn has_tag(tags: Seq<String>, tag: Seq<char>) -> bool {
    exists|j: int| 0 <= j < tags.len() && (#[trigger] tags[j])@ == tag
}

/// Whether every required tag appears among a script's tags.
pub open spec fn tags_cover(required: Seq<String>, script: Seq<String>) -> bool {
    forall|i: int| 0 <= i < required.len() ==> has_tag(script, (#[trigger] required[i])@)
}

/// Whether a list of tags holds one with this text.
fn holds_tag(tags: &Vec<String>, tag: &String) -> (r: bool)
    ensures
        r == has_tag(tags@, tag@),
{
    let mut j: usize = 0;
    while j < tags.len()
        invariant
            0 <= j <= tags@.len(),
            forall|k: int| 0 <= k < j ==> (#[trigger] tags@[k])@ != tag@,
        decreases tags@.len() - j,
    {
        if tags[j] == *tag {
            return true;
        }
        j = j + 1;
    }
    false
}

/// Whether a script carries every tag the configuration requires.
fn carries_all_tags(required: &Vec<String>, script: &Vec<String>) -> (r: bool)
    ensures
        r == tags_cover(required@, script@),
{
    let mut i: usize = 0;
    while i < required.len()
        invariant
            0 <= i <= required@.len(),
            forall|k: int| 0 <= k < i ==> has_tag(script@, (#[trigger] required@[k])@),
        decreases required@.len() - i,
    {
        if !holds_tag(script, &required[i]) {
            return false;
        }
        i = i + 1;
    }
    true
}

/// Whether the configuration selects a script: the script names tags, and
/// they cover every required one.
pub open spec fn selected(required: Seq<String>, script: ScriptFile) -> bool {
    script.tags matches Some(tags) && tags_cover(required, tags@)
}

/// Only scripts that carry all the tags found in the script configuration
/// are selected, in the order they were parsed.
pub fn select_scripts(parsed: Vec<ScriptFile>, required_tags: &Vec<String>) -> (r: Vec<
    ScriptFile,
>)
    ensures
        r@ == parsed@.filter(|s: ScriptFile| selected(required_tags@, s)),
{
    let ghost pred = |s: ScriptFile| selected(required_tags@, s);
    let ghost all = parsed@;
    let total = parsed.len();
    let mut rest = parsed;
    let mut out: Vec<ScriptFile> = Vec::new();
    let mut i: usize = 0;
    proof {
        assert(all.subrange(0, 0) =~= Seq::<ScriptFile>::empty());
        reveal(Seq::filter);
    }
    while rest.len() > 0
        invariant
            pred == (|s: ScriptFile| selected(required_tags@, s)),
            all.len() == total,
            i + rest@.len() == all.len(),
            rest@ == all.subrange(i as int, all.len() as int),
            out@ == all.subrange(0, i as int).filter(pred),
        decreases rest@.len(),
    {
        let script = rest.remove(0);
        proof {
            assert(script == all[i as int]);
            assert(rest@ =~= all.subrange(i + 1, all.len() as int));
            reveal(Seq::filter);
            let prefix = all.subrange(0, i as int);
            assert(all.subrange(0, i + 1) =~= prefix.push(all[i as int]));
            assert(prefix.push(all[i as int]).drop_last() =~= prefix);
        }
        let keep = match &script.tags {
            Some(tags) => carries_all_tags(required_tags, tags),
            None => false,
        };
        if keep {
            out.push(script);
        }
        i = i + 1;
    }
    proof {
        assert(all.subrange(0, all.len() as int) =~= all);
    }
    out
}

/// The open ports joined into one piece of text, written in decimal and
/// separated by the given separator — the form a script's command line
/// takes them in, for example `80,443` for nmap.
pub open spec fn joined_ports(ports: Seq<u16>, sep: Seq<char>) -> Seq<char>
    decreases ports.len(),
{
    if ports.len() == 0 {
        Seq::empty()
    } else if ports.len() == 1 {
        decimal_chars(ports[0] as nat)
    } else {
        joined_ports(ports.drop_last(), sep) + sep + decimal_chars(ports.last() as nat)
    }
}

/// Join the open ports with a separator for a script's command line.
pub fn join_ports(ports: &Vec<u16>, separator: &str) -> (r: String)
    ensures
        r@ == joined_ports(ports@, separator@),
{
    let mut out = String::new();
    let mut i: usize = 0;
    while i < ports.len()
        invariant
            0 <= i <= ports@.len(),
            out@ == joined_ports(ports@.subrange(0, i as int), separator@),
        decreases ports@.len() - i,
    {
        if i > 0 {
            out.append(separator);
        }
        append_decimal(&mut out, ports[i] as u64);
        proof {
            let prefix = ports@.subrange(0, i as int);
            let prefix1 = ports@.subrange(0, i + 1);
            assert(prefix1.drop_last() =~= prefix);
            assert(prefix1.last() == ports@[i as int]);
            if i == 0 {
                assert(out@ =~= joined_ports(prefix1, separator@));
            } else {
                assert(out@ =~= joined_ports(prefix1, separator@));
            }
        }
        i = i + 1;
    }
    proof {
        assert(ports@.subrange(0, ports@.len() as int) =~= ports@);
    }
    out
}

} // verus!
