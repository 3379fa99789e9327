use grit::error::Error;
use grit::vcs::dolt::{
    ahead_behind_query, compact_age, detail_sql, distance_from_rows, split_rename, sql_literal,
    status_change, subject_line, without_echoed_query, AheadBehindRow, BranchRow, DoltVcs, LogRow,
    SnapshotRow, StashRow, StatusRow, Wire, DOC_BRANCHES, DOC_LOG, DOC_SNAPSHOT, DOC_STASHES,
    DOC_STATUS, SHORT_ID_LEN, SNAPSHOT_QUERY,
};
use grit::vcs::{one_line, Change, Detail, RepoState, Snapshot, LOG_LIMIT};
use serde_json::Value;

// What the program does with `dolt sql -r json` before the library sees it:
// each document read as JSON, its `rows` (absent when there are none) taken
// one object at a time, and each column handed over as the value it is.

fn wire(row: &serde_json::Map<String, Value>, key: &str) -> Option<Wire> {
    match row.get(key)? {
        Value::Bool(b) => Some(Wire::Bool(*b)),
        Value::Number(n) => Some(Wire::Int(n.as_i64().expect("an integer"))),
        Value::String(s) => Some(Wire::Str(s.clone())),
        _ => None,
    }
}

fn text(row: &serde_json::Map<String, Value>, key: &str) -> Option<String> {
    row.get(key).and_then(|v| v.as_str()).map(|s| s.to_string())
}

fn rows_of(doc: &Value) -> Vec<serde_json::Map<String, Value>> {
    match doc.get("rows") {
        Some(Value::Array(items)) => items
            .iter()
            .map(|v| v.as_object().expect("a row is an object").clone())
            .collect(),
        _ => Vec::new(),
    }
}

fn snapshot_rows(doc: &Value) -> Vec<SnapshotRow> {
    rows_of(doc)
        .iter()
        .map(|r| SnapshotRow {
            branch: text(r, "branch"),
            upstream_remote: text(r, "upstream_remote"),
            upstream_branch: text(r, "upstream_branch"),
            staged: wire(r, "staged"),
            unstaged: wire(r, "unstaged"),
            untracked: wire(r, "untracked"),
            conflicts: wire(r, "conflicts"),
            stashes: wire(r, "stashes"),
            merging: wire(r, "merging"),
            head_id: text(r, "head_id"),
            head_subject: text(r, "head_subject"),
            head_age: wire(r, "head_age"),
        })
        .collect()
}

fn split_documents(out: &str) -> Result<Vec<Value>, serde_json::Error> {
    serde_json::Deserializer::from_str(out)
        .into_iter::<Value>()
        .collect()
}

fn parse_snapshot(out: &str) -> Result<Snapshot, String> {
    let doc: Value = serde_json::from_str(out).map_err(|e| e.to_string())?;
    DoltVcs::snapshot_from(&snapshot_rows(&doc)).map_err(|e| e.message())
}

fn parse_ahead_behind(out: &str) -> Result<(u32, u32), String> {
    let doc: Value = serde_json::from_str(out).map_err(|e| e.to_string())?;
    let rows: Vec<AheadBehindRow> = rows_of(&doc)
        .iter()
        .map(|r| AheadBehindRow { ahead: wire(r, "ahead"), behind: wire(r, "behind") })
        .collect();
    let d = distance_from_rows(&rows).map_err(|e| e.message())?;
    Ok((d.ahead, d.behind))
}

fn parse_detail(docs: &[Value]) -> Result<Detail, String> {
    let empty = Value::Null;
    let doc = |i: usize| docs.get(i).unwrap_or(&empty);
    let status: Vec<StatusRow> = rows_of(doc(DOC_STATUS))
        .iter()
        .map(|r| StatusRow {
            table_name: text(r, "table_name").unwrap_or_default(),
            staged: wire(r, "staged"),
            status: text(r, "status").unwrap_or_default(),
        })
        .collect();
    let log: Vec<LogRow> = rows_of(doc(DOC_LOG))
        .iter()
        .map(|r| LogRow {
            commit_hash: text(r, "commit_hash"),
            message: text(r, "message"),
            age: wire(r, "age"),
        })
        .collect();
    let stashes: Vec<StashRow> = rows_of(doc(DOC_STASHES))
        .iter()
        .map(|r| StashRow { stash_id: text(r, "stash_id"), commit_message: text(r, "commit_message") })
        .collect();
    let branches: Vec<BranchRow> = rows_of(doc(DOC_BRANCHES))
        .iter()
        .map(|r| BranchRow {
            name: text(r, "name"),
            remote: text(r, "remote"),
            branch: text(r, "branch"),
            hash: text(r, "hash"),
            latest_commit_message: text(r, "latest_commit_message"),
            age: wire(r, "age"),
        })
        .collect();
    DoltVcs::detail_from(&snapshot_rows(doc(DOC_SNAPSHOT)), &status, &log, &stashes, &branches)
        .map_err(|e| e.message())
}


/// A freshly initialised repo: one commit, no remote. Captured verbatim
/// from `dolt sql -r json`, including its omission of the null columns.
const FRESH: &str = r#"{"rows": [{"branch":"main","conflicts":0,"head_age":118,"head_id":"2mfsiihpci43vta4n53viivcmlvetpgn","head_subject":"Initialize data repository","merging":false,"staged":0,"stashes":0,"unstaged":0,"untracked":0}]}"#;

/// A repo tracking `origin/main` with work in every state at once.
const BUSY: &str = r#"{"rows": [{"branch":"main","conflicts":0,"head_age":287,"head_id":"c976njr9fgtc4kidr0hf7gqf77dnb6ol","head_subject":"add gone","merging":false,"staged":1,"stashes":0,"unstaged":3,"untracked":1,"upstream_branch":"main","upstream_remote":"origin"}]}"#;

/// A reading taken while a `dolt sql-server` held the database: identical
/// query, but every number arrives as a string over the wire protocol.
/// Captured from a real server-backed repo.
const SERVER_MODE: &str = r#"{"rows": [{"branch":"ingress/auslci-v48-2026","conflicts":"0","head_age":"2262","head_id":"he83ho5oqni9iacrlkogmcufcof9kdml","head_subject":"Add 2008 emission factors","merging":"0","staged":"0","stashes":"0","unstaged":"0","untracked":"0","upstream_branch":"ingress/auslci-v48-2026","upstream_remote":"origin"}]}"#;

/// Stopped in the middle of a merge with one table unresolved.
const CONFLICTED: &str = r#"{"rows": [{"branch":"main","conflicts":1,"head_age":207,"head_id":"llv5ak83i3c2ah4ce8gid07l8tgshbc9","head_subject":"main sets 2","merging":true,"staged":0,"stashes":0,"unstaged":0,"untracked":0}]}"#;

/// `dolt_status` in every shape it produces, captured verbatim. Note that
/// one table appears twice — staged as a new table, unstaged as deleted —
/// and that a rename puts both names in the one column.
const STATUS: &str = r#"{"rows": [{"staged":1,"status":"new table","table_name":"gadgets"},{"staged":1,"status":"new table","table_name":"sprockets"},{"staged":0,"status":"deleted","table_name":"gadgets"},{"staged":0,"status":"renamed","table_name":"sprockets -> widgets2"},{"staged":0,"status":"modified","table_name":"widgets"}]}"#;

const STASHES: &str = r#"{"rows": [{"branch":"main","commit_message":"second commit with a much longer subject line\nand a body paragraph that must never reach a table cell","hash":"eiejsd2eb9mbt2lo1ulqncqir4ivjuok","name":"dolt-cli","stash_id":"stash@{0}"}]}"#;

const BRANCHES: &str = r#"{"rows": [{"age":69,"branch":"","dirty":false,"hash":"eiejsd2eb9mbt2lo1ulqncqir4ivjuok","latest_commit_message":"second commit\nwith a body","name":"feature/thing","remote":""},{"age":69,"branch":"main","dirty":true,"hash":"eiejsd2eb9mbt2lo1ulqncqir4ivjuok","latest_commit_message":"second commit\nwith a body","name":"main","remote":"origin"}]}"#;

const DETAIL_LOG: &str = r#"{"rows": [{"age":0,"commit_hash":"eiejsd2eb9mbt2lo1ulqncqir4ivjuok","committer":"T","message":"second commit with a much longer subject line\nand a body paragraph that must never reach a table cell"},{"age":1,"commit_hash":"2q5i8s10o2a12dg0t3gb940pck9om0ik","committer":"T","message":"Initialize data repository"}]}"#;

/// An empty result set. Dolt drops the `rows` key altogether rather than
/// writing an empty array, which is what `Rows`'s default is for.
const EMPTY: &str = "{}";

fn detail_of(status: &str, log: &str, stashes: &str, branches: &str) -> Detail {
    let joined = format!("{FRESH}\n{status}\n{log}\n{stashes}\n{branches}");
    parse_detail(&split_documents(&joined).expect("fixtures are valid json"))
        .expect("fixtures deserialise")
}

#[test]
fn a_multi_statement_answer_splits_into_one_document_per_statement() {
    let joined = format!("{FRESH}\n{STATUS}\n{EMPTY}");
    assert_eq!(split_documents(&joined).unwrap().len(), 3);
}

#[test]
fn a_detail_reading_maps_each_document_to_its_reading() {
    let detail = detail_of(STATUS, DETAIL_LOG, STASHES, BRANCHES);
    assert_eq!(detail.snapshot.branch.as_deref(), Some("main"));
    assert_eq!(detail.files.len(), 4);
    assert_eq!(detail.commits.len(), 2);
    assert_eq!(detail.stashes.len(), 1);
    assert_eq!(detail.branches.len(), 2);
}

#[test]
fn the_two_sides_of_one_table_fold_into_one_row() {
    // `gadgets` is staged as a new table and deleted in the working set;
    // git puts both on one line and so does the detail view.
    let detail = detail_of(STATUS, EMPTY, EMPTY, EMPTY);
    let gadgets = detail
        .files
        .iter()
        .find(|f| f.path == "gadgets")
        .expect("gadgets is in the fixture");
    assert_eq!(gadgets.staged, Some(Change::Added));
    assert_eq!(gadgets.unstaged, Some(Change::Deleted));
}

#[test]
fn a_rename_is_split_out_of_the_one_column_dolt_puts_it_in() {
    let detail = detail_of(STATUS, EMPTY, EMPTY, EMPTY);
    let renamed = detail
        .files
        .iter()
        .find(|f| f.path == "widgets2")
        .expect("the rename is in the fixture");
    assert_eq!(renamed.origin.as_deref(), Some("sprockets"));
    assert_eq!(renamed.unstaged, Some(Change::Renamed));
}

#[test]
fn an_unstaged_new_table_is_untracked_and_a_staged_one_is_added() {
    // The same word on the two sides means different things, and
    // SNAPSHOT_QUERY counts them the same way this reads them.
    assert_eq!(status_change("new table", false), Change::Untracked);
    assert_eq!(status_change("new table", true), Change::Added);
}

#[test]
fn a_status_word_this_build_does_not_know_is_read_as_a_modification() {
    assert_eq!(status_change("something new", false), Change::Modified);
}

#[test]
fn a_table_name_with_no_arrow_in_it_is_not_a_rename() {
    assert_eq!(split_rename("widgets"), ("widgets".to_string(), None));
}

#[test]
fn a_commit_body_never_reaches_the_detail_view_either() {
    // The same trap `subject_line` exists for, one layer out: dolt's
    // message column is the whole message in the log, in the stash list
    // and in the branch list alike.
    let detail = detail_of(EMPTY, DETAIL_LOG, STASHES, BRANCHES);
    for subject in [
        detail.commits[0].subject.as_str(),
        detail.stashes[0].message.as_str(),
        detail.branches[0].tip.as_ref().unwrap().subject.as_str(),
    ] {
        assert!(
            !subject.contains('\n'),
            "a body reached a cell: {subject:?}"
        );
    }
}

#[test]
fn a_commit_hash_is_abbreviated_the_way_the_dashboard_abbreviates_it() {
    let detail = detail_of(EMPTY, DETAIL_LOG, EMPTY, EMPTY);
    assert_eq!(detail.commits[0].short_id, "eiejsd2e");
    assert_eq!(detail.commits[0].short_id.len(), SHORT_ID_LEN);
}

#[test]
fn a_stash_has_no_age_because_dolt_records_none() {
    let detail = detail_of(EMPTY, EMPTY, STASHES, EMPTY);
    assert_eq!(detail.stashes[0].id, "stash@{0}");
    assert!(detail.stashes[0].age.is_empty());
}

#[test]
fn a_branch_upstream_is_joined_only_when_both_halves_are_there() {
    let detail = detail_of(EMPTY, EMPTY, EMPTY, BRANCHES);
    assert_eq!(detail.branches[0].upstream, None);
    assert_eq!(detail.branches[1].upstream.as_deref(), Some("origin/main"));
}

#[test]
fn a_branch_starts_out_unmeasured_rather_than_level() {
    // `fill_distances` needs a second round trip to count these, and it
    // may not get one. Zero here would put a ✓ against every branch in a
    // repo whose upstreams have never been fetched.
    let detail = detail_of(EMPTY, EMPTY, EMPTY, BRANCHES);
    assert!(detail.branches.iter().all(|b| b.distance.is_none()));
}

#[test]
fn the_checked_out_branch_is_the_one_the_snapshot_names() {
    let detail = detail_of(EMPTY, EMPTY, EMPTY, BRANCHES);
    assert!(!detail.branches[0].head, "feature/thing is not checked out");
    assert!(detail.branches[1].head, "main is");
}

#[test]
fn an_empty_result_set_reads_as_nothing_rather_than_failing() {
    let detail = detail_of(EMPTY, EMPTY, EMPTY, EMPTY);
    assert!(detail.files.is_empty());
    assert!(detail.commits.is_empty());
    assert!(detail.stashes.is_empty());
    assert!(detail.branches.is_empty());
}

#[test]
fn a_detail_reading_survives_a_server_stringifying_everything() {
    // The same trap as the snapshot's: with a `dolt sql-server` holding
    // the database, `staged` arrives as "1" and `age` as "69".
    let wired = STATUS.replace(r#""staged":1"#, r#""staged":"1""#);
    let detail = detail_of(&wired, EMPTY, EMPTY, EMPTY);
    assert_eq!(
        detail
            .files
            .iter()
            .find(|f| f.path == "sprockets")
            .and_then(|f| f.staged),
        Some(Change::Added)
    );
}

#[test]
fn the_detail_query_carries_one_statement_per_document_index() {
    // The `DOC_*` constants are positions in a list built somewhere else,
    // and nothing but this ties the two together.
    let sql = detail_sql();
    assert_eq!(sql.matches(";\n").count() + 1, DOC_BRANCHES + 1);
    assert!(sql.contains(&format!("limit {LOG_LIMIT}")));
}

#[test]
fn a_fresh_repo_is_clean_and_synced() {
    let s = parse_snapshot(FRESH).unwrap();
    assert_eq!(s.branch.as_deref(), Some("main"));
    assert!(s.is_clean());
    assert!(s.is_synced());
    assert_eq!(s.state, RepoState::Normal);
}

#[test]
fn a_repo_with_no_upstream_has_none() {
    // Dolt leaves the column out of the JSON rather than writing null, so
    // this asserts the parser tolerates an absent key.
    assert!(!FRESH.contains("upstream"));
    assert_eq!(parse_snapshot(FRESH).unwrap().upstream, None);
}

#[test]
fn an_upstream_is_joined_into_remote_slash_branch_form() {
    let s = parse_snapshot(BUSY).unwrap();
    assert_eq!(s.upstream.as_deref(), Some("origin/main"));
}

#[test]
fn staged_unstaged_and_untracked_are_counted_apart() {
    let s = parse_snapshot(BUSY).unwrap();
    assert_eq!(
        (s.staged, s.unstaged, s.untracked, s.conflicts),
        (1, 3, 1, 0)
    );
    assert!(!s.is_clean());
}

#[test]
fn a_conflict_reports_the_repo_as_merging() {
    let s = parse_snapshot(CONFLICTED).unwrap();
    assert_eq!(s.conflicts, 1);
    assert_eq!(s.state, RepoState::Merging);
    assert!(!s.is_clean());
}

#[test]
fn a_merge_with_nothing_conflicted_yet_still_reports_merging() {
    let out = CONFLICTED.replace(r#""conflicts":1"#, r#""conflicts":0"#);
    let s = parse_snapshot(&out).unwrap();
    assert_eq!(s.conflicts, 0);
    assert_eq!(s.state, RepoState::Merging);
}

#[test]
fn the_head_commit_is_abbreviated_and_aged() {
    let head = parse_snapshot(BUSY).unwrap().head.unwrap();
    assert_eq!(head.short_id, "c976njr9");
    assert_eq!(head.subject, "add gone");
    assert_eq!(head.age, "4m");
}

/// Verbatim from the commit that put a body in the dashboard.
#[test]
fn only_the_first_line_of_a_commit_message_is_the_subject() {
    let message = "Move EXIOBASE FLAG and land management values to premium slots (API-9974)\n\
                   \nEXIOBASE FLAG and land management data is a licence add-on on top of a\n\
                   basic EXIOBASE 3.11 licence, so its values have to sit in indicator slots\n\
                   the API can gate separately from the rest of the dataset.";
    assert_eq!(
        subject_line(message),
        "Move EXIOBASE FLAG and land management values to premium slots (API-9974)"
    );
}

#[test]
fn a_message_body_never_reaches_the_snapshot() {
    let out = BUSY.replace("add gone", "the subject\\n\\nand a body");
    let head = parse_snapshot(&out).unwrap().head.unwrap();
    assert_eq!(head.subject, "the subject");
    assert!(!head.subject.contains('\n'), "{:?}", head.subject);
}

#[test]
fn a_one_line_message_is_left_alone() {
    assert_eq!(subject_line("just the subject"), "just the subject");
    assert_eq!(subject_line(""), "");
}

#[test]
fn dolt_a_subject_containing_unicode_and_punctuation_is_preserved() {
    let subject = "✨ ship the 2.0 rewrite ✨ (#420) — with a, comma";
    let out = BUSY.replace("add gone", subject);
    let head = parse_snapshot(&out).unwrap().head.unwrap();
    assert_eq!(head.subject, subject);
}

#[test]
fn stashes_are_read_from_the_stash_table() {
    let out = FRESH.replace(r#""stashes":0"#, r#""stashes":3"#);
    assert_eq!(parse_snapshot(&out).unwrap().stashes, 3);
}

#[test]
fn an_empty_result_set_parses_to_the_default_snapshot() {
    // `dolt sql` prints a bare `{}` when a query returns no rows.
    assert_eq!(parse_snapshot("{}").unwrap(), Snapshot::default());
    assert_eq!(
        parse_snapshot(r#"{"rows": []}"#).unwrap(),
        Snapshot::default()
    );
}

#[test]
fn output_that_is_not_json_is_an_error_rather_than_a_default() {
    assert!(parse_snapshot("Warning: something went sideways").is_err());
}

#[test]
fn ahead_and_behind_are_read_from_the_counts() {
    let out = r#"{"rows": [{"ahead":2,"behind":7}]}"#;
    assert_eq!(parse_ahead_behind(out).unwrap(), (2, 7));
}

#[test]
fn a_missing_ahead_behind_row_counts_as_zero() {
    assert_eq!(parse_ahead_behind("{}").unwrap(), (0, 0));
}

#[test]
fn the_ahead_range_runs_from_the_upstream_to_the_branch() {
    // The classic way to get this wrong is to swap the two ends, which
    // silently reports "behind" as "ahead".
    let query = ahead_behind_query("main", "origin/main");
    assert!(
        query.contains("dolt_log('remotes/origin/main..main')) as ahead"),
        "{query}"
    );
    assert!(
        query.contains("dolt_log('main..remotes/origin/main')) as behind"),
        "{query}"
    );
}

#[test]
fn a_branch_name_with_a_quote_cannot_break_out_of_the_literal() {
    // Dolt really does allow this: `dolt branch "we'ird"` succeeds.
    assert_eq!(sql_literal("we'ird"), "'we''ird'");
    assert_eq!(sql_literal(r"back\slash"), r"'back\\slash'");
    assert!(ahead_behind_query("we'ird", "origin/main").contains("..we''ird'"));
}

#[test]
fn numbers_arriving_as_strings_are_read_the_same_way() {
    // What a running `dolt sql-server` does to every value in the row.
    let s = parse_snapshot(SERVER_MODE).unwrap();
    assert_eq!(s.branch.as_deref(), Some("ingress/auslci-v48-2026"));
    assert_eq!(
        s.upstream.as_deref(),
        Some("origin/ingress/auslci-v48-2026")
    );
    assert_eq!(
        (s.staged, s.unstaged, s.untracked, s.conflicts),
        (0, 0, 0, 0)
    );
    assert!(s.is_clean());
    assert_eq!(s.state, RepoState::Normal);
    assert_eq!(s.head.unwrap().age, "37m");
}

#[test]
fn a_merge_flag_of_string_one_still_reports_merging() {
    let out = SERVER_MODE.replace(r#""merging":"0""#, r#""merging":"1""#);
    assert_eq!(parse_snapshot(&out).unwrap().state, RepoState::Merging);
}

#[test]
fn counts_arriving_as_strings_are_counted() {
    let out = SERVER_MODE
        .replace(r#""staged":"0""#, r#""staged":"4""#)
        .replace(r#""stashes":"0""#, r#""stashes":"2""#);
    let s = parse_snapshot(&out).unwrap();
    assert_eq!((s.staged, s.stashes), (4, 2));
    assert!(!s.is_clean());
}

#[test]
fn ahead_and_behind_arriving_as_strings_are_read_too() {
    let out = r#"{"rows": [{"ahead":"2","behind":"7"}]}"#;
    assert_eq!(parse_ahead_behind(out).unwrap(), (2, 7));
}

#[test]
fn a_count_that_is_not_a_number_at_all_is_an_error() {
    // Better a visibly unreadable row than a confidently clean one.
    let out = SERVER_MODE.replace(r#""staged":"0""#, r#""staged":"lots""#);
    assert!(parse_snapshot(&out).is_err());
}

#[test]
fn dolts_echo_of_the_query_is_stripped_from_its_error() {
    // Dolt quotes the whole statement back at us. What matters is the tail.
    let stderr = format!("error on line 1 for query {SNAPSHOT_QUERY}: no database selected");
    let cleaned = without_echoed_query(&stderr, SNAPSHOT_QUERY);
    assert_eq!(cleaned, "error on line 1 for query …: no database selected");
}

#[test]
fn an_error_that_does_not_echo_the_query_is_left_alone() {
    let stderr = "error: database locked by another dolt process";
    assert_eq!(without_echoed_query(stderr, SNAPSHOT_QUERY), stderr);
}

/// The failure that made this necessary: the query is multi-line, `grit
/// status` shows only an error's first line, and pasting the query in put a
/// newline where the explanation should have been.
#[test]
fn a_query_failure_says_what_went_wrong_on_its_first_line() {
    let stderr = format!("error on line 1 for query {SNAPSHOT_QUERY}: no database selected");
    let message = Error::CommandFailed {
        program: "dolt".to_string(),
        args: "sql -q <status query>".to_string(),
        status: "exit status: 1".to_string(),
        stderr: one_line(&without_echoed_query(&stderr, SNAPSHOT_QUERY)),
    }
    .message();

    let first_line = message.lines().next().unwrap();
    assert!(
        first_line.contains("no database selected"),
        "the cause never reached the first line: {first_line}"
    );
    assert!(!first_line.contains("select count(*)"), "{first_line}");
}

#[test]
fn ages_are_compacted() {
    let cases = [
        (0, "0s"),
        (45, "45s"),
        (90, "1m"),
        (7_320, "2h"),
        (100_800, "1d"),
        (5 * 86_400, "5d"),
        (14 * 86_400, "2w"),
        (5 * 604_800, "5w"),
        (7 * 2_629_746, "7mo"),
        (31_556_952, "1y"),
        (2 * 31_556_952 + 3 * 2_629_746, "2y"),
    ];
    for (input, want) in cases {
        assert_eq!(compact_age(input), want, "input: {input}");
    }
}

#[test]
fn a_commit_dated_in_the_future_is_treated_as_brand_new() {
    assert_eq!(compact_age(-500), "0s");
}


#[test]
fn every_detail_reading_has_the_same_shape() {
    let d = detail_of(STATUS, DETAIL_LOG, STASHES, BRANCHES);
    let current = d.snapshot.branch.clone().unwrap_or_default();
    assert!(!d.commits.is_empty() && !d.branches.is_empty() && !d.stashes.is_empty());
    for c in d.commits.iter().chain(d.snapshot.head.iter()).chain(d.branches.iter().filter_map(|b| b.tip.as_ref())) {
        assert!(!c.subject.contains('\n'), "{:?}", c.subject);
        assert!(c.short_id.chars().count() <= SHORT_ID_LEN, "{:?}", c.short_id);
    }
    for s in &d.stashes {
        assert!(!s.message.contains('\n'), "{:?}", s.message);
    }
    for b in &d.branches {
        assert_eq!(b.distance, None);
        assert_eq!(b.head, b.name == current, "{}", b.name);
    }
    for (i, f) in d.files.iter().enumerate() {
        assert!(d.files[i + 1..].iter().all(|g| g.path != f.path), "{}", f.path);
    }
}

#[test]
fn an_unreadable_value_is_named_in_the_error() {
    let row = SnapshotRow {
        branch: Some("main".to_string()),
        staged: Some(Wire::Int(1)),
        unstaged: Some(Wire::Str("lots".to_string())),
        stashes: Some(Wire::Str("many".to_string())),
        ..SnapshotRow::default()
    };
    match DoltVcs::snapshot_from(&vec![SnapshotRow::default(), row.clone()]) {
        Err(Error::BadOutput { program, message }) => {
            assert_eq!(program, "dolt");
            assert_eq!(message, "expected a number, got \"lots\"");
        }
        other => panic!("{other:?}"),
    }
    let log = vec![LogRow { commit_hash: None, message: None, age: Some(Wire::Str("old".to_string())) }];
    match DoltVcs::detail_from(&vec![SnapshotRow::default()], &Vec::new(), &log, &Vec::new(), &Vec::new()) {
        Err(Error::BadOutput { message, .. }) => assert_eq!(message, "expected a number, got \"old\""),
        other => panic!("{other:?}"),
    }
    match DoltVcs::detail_from(&vec![row], &Vec::new(), &log, &Vec::new(), &Vec::new()) {
        Err(Error::BadOutput { message, .. }) => assert_eq!(message, "expected a number, got \"lots\""),
        other => panic!("{other:?}"),
    }
}
