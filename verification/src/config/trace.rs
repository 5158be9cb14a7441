//! The files that traces are read from.
use crate::error::Error;
use vstd::prelude::*;
use vstd::string::StringExecFns;

verus! {

/// How a trace is written down.
#[derive(Debug, Clone, Copy, PartialEq, Eq, Structural)]
pub enum TraceFormat {
    Json,
    Toml,
    /// One millisecond timestamp per line, each an opportunity to send a packet.
    Mahimahi,
}

/// The format that a file name extension stands for.
pub open spec fn format_of(extension: Option<Seq<char>>) -> Option<TraceFormat> {
    match extension {
        Some(e) => if e == "json"@ {
            Some(TraceFormat::Json)
        } else if e == "toml"@ {
            Some(TraceFormat::Toml)
        } else {
            None
        },
        None => None,
    }
}

/// What a file name extension is, as characters.
pub open spec fn extension_view(extension: Option<String>) -> Option<Seq<char>> {
    match extension {
        Some(e) => Some(e@),
        None => None,
    }
}

/// The format that a file name extension stands for.
fn known_format(extension: &Option<String>) -> (format: Option<TraceFormat>)
    ensures
        format == format_of(extension_view(*extension)),
{
    match extension {
        Some(e) => if *e == "json".to_owned() {
            Some(TraceFormat::Json)
        } else if *e == "toml".to_owned() {
            Some(TraceFormat::Toml)
        } else {
            None
        },
        None => None,
    }
}

/// The format of the trace in the file at `path`, which has the given extension, if it has
/// one. All other files are refused.
pub fn trace_format(path: &str, extension: &Option<String>) -> (r: Result<TraceFormat, Error>)
    ensures
        match format_of(extension_view(*extension)) {
            Some(format) => r == Ok::<TraceFormat, Error>(format),
            None => r is Err && r->Err_0 is ConfigError && r->Err_0.text()
                == "Unknown trace file format: "@ + path@,
        },
{
    match known_format(extension) {
        Some(format) => Ok(format),
        None => Err(
            Error::ConfigError("Unknown trace file format: ".to_owned().concat(path)),
        ),
    }
}

/// The format of a bandwidth trace in a file with the given extension, if it has one. All
/// other files are lists of timestamps.
pub fn bw_trace_format(extension: &Option<String>) -> (format: TraceFormat)
    ensures
        format == match format_of(extension_view(*extension)) {
            Some(format) => format,
            None => TraceFormat::Mahimahi,
        },
{
    match known_format(extension) {
        Some(format) => format,
        None => TraceFormat::Mahimahi,
    }
}

/// A file is read as JSON or TOML exactly if its extension is that word.
pub proof fn law_extension_names_the_format(extension: Seq<char>)
    ensures
        format_of(Some(extension)) == Some(TraceFormat::Json) <==> extension == seq![
            'j',
            's',
            'o',
            'n',
        ],
        format_of(Some(extension)) == Some(TraceFormat::Toml) <==> extension == seq![
            't',
            'o',
            'm',
            'l',
        ],
        format_of(Some(extension)) != Some(TraceFormat::Mahimahi),
        format_of(None) is None,
{
    reveal_strlit("json");
    reveal_strlit("toml");
    assert("json"@ =~= seq!['j', 's', 'o', 'n']);
    assert("toml"@ =~= seq!['t', 'o', 'm', 'l']);
    assert("json"@[0] != "toml"@[0]);
}

} // verus!
