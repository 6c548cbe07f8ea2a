//! The checks and choices the command line makes before and after asking the
//! API: which key to use, which hashids were given, which options are valid,
//! and how results are combined and reported.
use vstd::prelude::*;
use crate::text::{
    split_on, split_text, trim, trim_text, lowercase, to_lowercase, decimal, u64_to_decimal,
    all_ascii, ascii_lower, ascii_lowercase,
    is_white_space, lemma_trim_shape, lemma_split_on_pieces_lack_sep,
};

verus! {

/// Invalid input that the command line refuses.
#[derive(PartialEq, Eq, Structural, Clone, Copy, Debug)]
pub enum CliError {
    /// No API key was given on the command line nor in the environment.
    MissingApiKey,
    /// The hashid argument names no hashid.
    EmptyHashid,
    /// `--details` is neither 0 nor 1.
    InvalidDetails,
    /// `--mode` is none of `day`, `week`, `month`.
    InvalidMode,
}

/// The message that each error is reported with.
pub open spec fn error_message(e: CliError) -> Seq<char> {
    match e {
        CliError::MissingApiKey => "Missing API key: use --apikey <KEY> or set TOPHUB_APIKEY in .env"@,
        CliError::EmptyHashid => "hashid is empty, please provide at least one hashid"@,
        CliError::InvalidDetails => "--details only supports 0 or 1"@,
        CliError::InvalidMode => "--mode only supports day/week/month"@,
    }
}

impl CliError {
    /// The message this error is reported with.
    pub fn message(&self) -> (r: String)
        ensures
            r@ == error_message(*self),
    {
        match self {
            CliError::MissingApiKey => String::from_str(
                "Missing API key: use --apikey <KEY> or set TOPHUB_APIKEY in .env",
            ),
            CliError::EmptyHashid => String::from_str(
                "hashid is empty, please provide at least one hashid",
            ),
            CliError::InvalidDetails => String::from_str("--details only supports 0 or 1"),
            CliError::InvalidMode => String::from_str("--mode only supports day/week/month"),
        }
    }
}

/// Chooses the API key: the one given on the command line if any, else the
/// one from the environment (`TOPHUB_APIKEY`, also read from `.env`); an error
/// if neither is given.
pub fn resolve_api_key(cli_key: Option<String>, env_key: Option<String>) -> (r: Result<
    String,
    CliError,
>)
    ensures
        cli_key.is_some() ==> r == Ok::<String, CliError>(cli_key.unwrap()),
        cli_key.is_none() && env_key.is_some() ==> r == Ok::<String, CliError>(env_key.unwrap()),
        cli_key.is_none() && env_key.is_none() ==> r == Err::<String, CliError>(
            CliError::MissingApiKey,
        ),
{
    match cli_key {
        Some(k) => Ok(k),
        None => match env_key {
            Some(k) => Ok(k),
            None => Err(CliError::MissingApiKey),
        },
    }
}

/// The trimmed, non-empty pieces among `pieces`, in order.
pub open spec fn nonempty_trimmed(pieces: Seq<Seq<char>>) -> Seq<Seq<char>>
    decreases pieces.len(),
{
    if pieces.len() == 0 {
        Seq::<Seq<char>>::empty()
    } else {
        let t = trim(pieces.last());
        if t.len() > 0 {
            nonempty_trimmed(pieces.drop_last()).push(t)
        } else {
            nonempty_trimmed(pieces.drop_last())
        }
    }
}

/// The hashids that a hashid argument names: its comma-separated pieces,
/// trimmed, without the empty ones, in the order given.
pub open spec fn hashid_list(arg: Seq<char>) -> Seq<Seq<char>> {
    nonempty_trimmed(split_on(arg, ','))
}

/// The hashids named by a comma-separated argument (see `hashid_list`); an
/// error if it names none.
pub fn node_hashids(arg: &str) -> (r: Result<Vec<String>, CliError>)
    ensures
        match r {
            Ok(ids) => ids@.map_values(|s: String| s@) == hashid_list(arg@) && ids@.len() > 0,
            Err(e) => e == CliError::EmptyHashid && hashid_list(arg@).len() == 0,
        },
{
    let pieces = split_text(arg, ',');
    let ghost all = pieces@.map_values(|p: String| p@);
    let mut ids: Vec<String> = Vec::new();
    let n = pieces.len();
    let mut i: usize = 0;
    assert(all.take(0) =~= Seq::<Seq<char>>::empty());
    assert(ids@.map_values(|s: String| s@) =~= Seq::<Seq<char>>::empty());
    while i < n
        invariant
            n == pieces@.len(),
            all == pieces@.map_values(|p: String| p@),
            i <= n,
            ids@.map_values(|s: String| s@) == nonempty_trimmed(all.take(i as int)),
        decreases n - i,
    {
        let t = trim_text(pieces[i].as_str());
        let ghost before = ids@.map_values(|s: String| s@);
        assert(all.take(i + 1).drop_last() =~= all.take(i as int));
        assert(all.take(i + 1).last() == pieces@[i as int]@);
        if !t.as_str().is_empty() {
            ids.push(t);
            assert(ids@.map_values(|s: String| s@) =~= before.push(trim(pieces@[i as int]@)));
        }
        i = i + 1;
    }
    assert(all.take(n as int) =~= all);
    if ids.len() == 0 {
        Err(CliError::EmptyHashid)
    } else {
        Ok(ids)
    }
}

/// Every piece that `nonempty_trimmed` keeps is the non-empty trimmed form
/// of one of the pieces.
proof fn lemma_nonempty_trimmed_origin(pieces: Seq<Seq<char>>)
    ensures
        forall|i: int|
            0 <= i < nonempty_trimmed(pieces).len() ==> #[trigger] nonempty_trimmed(pieces)[i].len()
                > 0 && exists|j: int|
                0 <= j < pieces.len() && nonempty_trimmed(pieces)[i] == trim(pieces[j]),
    decreases pieces.len(),
{
    if pieces.len() > 0 {
        lemma_nonempty_trimmed_origin(pieces.drop_last());
        let prev = nonempty_trimmed(pieces.drop_last());
        let cur = nonempty_trimmed(pieces);
        assert forall|i: int| 0 <= i < cur.len() implies #[trigger] cur[i].len() > 0 && exists|j: int|
            0 <= j < pieces.len() && cur[i] == trim(pieces[j]) by {
            if i < prev.len() {
                assert(cur[i] == prev[i]);
                let j = choose|j: int|
                    0 <= j < pieces.drop_last().len() && prev[i] == trim(pieces.drop_last()[j]);
                assert(pieces[j] == pieces.drop_last()[j]);
            } else {
                assert(cur[i] == trim(pieces.last()));
                assert(pieces.last() == pieces[pieces.len() - 1]);
            }
        }
    }
}

/// The hashids that an argument names are non-empty, hold no comma, and
/// neither start nor end with whitespace: each is one comma-separated piece
/// of the argument with its surrounding whitespace removed.
pub proof fn lemma_hashids_are_clean(arg: Seq<char>)
    ensures
        forall|i: int|
            0 <= i < hashid_list(arg).len() ==> {
                let id = #[trigger] hashid_list(arg)[i];
                &&& id.len() > 0
                &&& !is_white_space(id[0])
                &&& !is_white_space(id.last())
                &&& forall|k: int| 0 <= k < id.len() ==> id[k] != ','
            },
{
    let pieces = split_on(arg, ',');
    lemma_nonempty_trimmed_origin(pieces);
    lemma_split_on_pieces_lack_sep(arg, ',');
    assert forall|i: int| 0 <= i < hashid_list(arg).len() implies {
        let id = #[trigger] hashid_list(arg)[i];
        &&& id.len() > 0
        &&& !is_white_space(id[0])
        &&& !is_white_space(id.last())
        &&& forall|k: int| 0 <= k < id.len() ==> id[k] != ','
    } by {
        let id = hashid_list(arg)[i];
        let j = choose|j: int| 0 <= j < pieces.len() && id == trim(pieces[j]);
        lemma_trim_shape(pieces[j]);
        let (lo, hi) = choose|lo: int, hi: int|
            0 <= lo <= hi <= pieces[j].len() && trim(pieces[j]) == pieces[j].subrange(lo, hi);
        assert forall|k: int| 0 <= k < id.len() implies id[k] != ',' by {
            assert(id[k] == pieces[j][lo + k]);
        }
    }
}

/// Checks `--details`: when given, it must be 0 (the list of snapshots) or
/// 1 (their content).
pub fn check_details(details: Option<u8>) -> (r: Result<(), CliError>)
    ensures
        r is Ok <==> (details matches Some(d) ==> d <= 1),
        r matches Err(e) ==> e == CliError::InvalidDetails,
{
    match details {
        Some(d) => {
            if d != 0 && d != 1 {
                Err(CliError::InvalidDetails)
            } else {
                Ok(())
            }
        },
        None => Ok(()),
    }
}

/// Whether `mode` is one of the calendar modes `day`, `week`, `month`.
pub open spec fn is_calendar_mode(mode: Seq<char>) -> bool {
    mode == "day"@ || mode == "week"@ || mode == "month"@
}

/// Checks `--mode` of the calendar: its lowercase form must be `day`, `week`
/// or `month`, and is what the request then carries.
pub fn calendar_mode(mode: &str) -> (r: Result<String, CliError>)
    ensures
        match r {
            Ok(m) => m@ == lowercase(mode@) && is_calendar_mode(m@),
            Err(e) => e == CliError::InvalidMode && !is_calendar_mode(lowercase(mode@)),
        },
        all_ascii(mode@) ==> match r {
            Ok(m) => m@ == ascii_lower(mode@) && is_calendar_mode(ascii_lower(mode@)),
            Err(_) => !is_calendar_mode(ascii_lower(mode@)),
        },
{
    let unicode = to_lowercase(mode);
    // on ASCII text the mapping is the plain one, computed here
    let lowered = match ascii_lowercase(mode) {
        Some(plain) => plain,
        None => unicode,
    };
    accept_calendar_mode(lowered)
}

/// Accepts a `--mode` already in lowercase if it is `day`, `week` or
/// `month`.
pub fn accept_calendar_mode(lowered: String) -> (r: Result<String, CliError>)
    ensures
        match r {
            Ok(m) => m@ == lowered@ && is_calendar_mode(lowered@),
            Err(e) => e == CliError::InvalidMode && !is_calendar_mode(lowered@),
        },
{
    let day = String::from_str("day");
    let week = String::from_str("week");
    let month = String::from_str("month");
    if lowered == day || lowered == week || lowered == month {
        Ok(lowered)
    } else {
        Err(CliError::InvalidMode)
    }
}

/// The keys under which the `batch` command reports its four answers.
pub open spec fn batch_keys() -> Seq<Seq<char>> {
    seq!["nodes"@, "node"@, "node_historys"@, "search"@]
}

/// Combines the four answers of the `batch` command: each under its key, in
/// the order `nodes`, `node`, `node_historys`, `search`, if all four
/// succeeded; otherwise the first error in that order.
pub fn batch_output<T, E>(
    nodes: Result<T, E>,
    node: Result<T, E>,
    node_historys: Result<T, E>,
    search: Result<T, E>,
) -> (r: Result<Vec<(String, T)>, E>)
    ensures
        match (nodes, node, node_historys, search) {
            (Ok(a), Ok(b), Ok(c), Ok(d)) => r matches Ok(pairs) && pairs@.len() == 4
                && pairs@.map_values(|p: (String, T)| p.0@) == batch_keys() && pairs@[0].1 == a
                && pairs@[1].1 == b && pairs@[2].1 == c && pairs@[3].1 == d,
            (Err(e), _, _, _) => r == Err::<Vec<(String, T)>, E>(e),
            (Ok(_), Err(e), _, _) => r == Err::<Vec<(String, T)>, E>(e),
            (Ok(_), Ok(_), Err(e), _) => r == Err::<Vec<(String, T)>, E>(e),
            (Ok(_), Ok(_), Ok(_), Err(e)) => r == Err::<Vec<(String, T)>, E>(e),
        },
{
    let a = match nodes {
        Ok(v) => v,
        Err(e) => return Err(e),
    };
    let b = match node {
        Ok(v) => v,
        Err(e) => return Err(e),
    };
    let c = match node_historys {
        Ok(v) => v,
        Err(e) => return Err(e),
    };
    let d = match search {
        Ok(v) => v,
        Err(e) => return Err(e),
    };
    let mut pairs: Vec<(String, T)> = Vec::new();
    pairs.push((String::from_str("nodes"), a));
    pairs.push((String::from_str("node"), b));
    pairs.push((String::from_str("node_historys"), c));
    pairs.push((String::from_str("search"), d));
    assert(pairs@.map_values(|p: (String, T)| p.0@) =~= batch_keys());
    Ok(pairs)
}

/// The report of a finished export of node results.
pub open spec fn dump_report(records: nat, path: Seq<char>) -> Seq<char> {
    "dump completed: "@ + decimal(records) + " records written to "@ + path
}

/// Reports a finished export: `dump completed: N records written to PATH`.
pub fn dump_completed_message(records: usize, path: &str) -> (r: String)
    ensures
        r@ == dump_report(records as nat, path@),
{
    let mut r = String::from_str("dump completed: ");
    let count = u64_to_decimal(records as u64);
    r.append(count.as_str());
    r.append(" records written to ");
    r.append(path);
    r
}

/// Reports a finished export of all node lists, which also names the pages
/// that were fetched: `dump completed: N records written to PATH (p=1..100)`.
pub fn dumpall_completed_message(records: usize, path: &str) -> (r: String)
    ensures
        r@ == dump_report(records as nat, path@) + " (p=1..100)"@,
{
    let mut r = dump_completed_message(records, path);
    r.append(" (p=1..100)");
    r
}

} // verus!
