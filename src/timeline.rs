//! The reporting session: the two reports drawn from one set of counters.

use vstd::prelude::*;
use vstd::string::*;

use crate::maps::{EventCatalog, catalog_titles, event_counts, logon_counts};
use crate::metrics::EventMetrics;
use crate::order::keyed_view;
use crate::rows::{sorted_counts, sorted_event_counts, sorted_logon_counts, sorted_logons};
use crate::table::{cells_view, draw_table, drawn_table, strings_view};
use crate::text::{decimal, decimal_text, format_percent, percent_text};

verus! {

/// Which of the two reports are wanted.
pub struct ReportFlags {
    /// The event-ID frequency report.
    pub metrics: bool,
    /// The per-user logon summary.
    pub logon_summary: bool,
}

/// Why a report could not be drawn.
pub enum ReportError {
    /// A user key too short to hold the quotes around a user name.
    MalformedUserKey(String),
}

/// The title shown for event ID `id`: its catalog title, or `Unknown`.
pub open spec fn title_or_unknown(titles: Map<Seq<char>, Seq<char>>, id: Seq<char>) -> Seq<char> {
    if titles.contains_key(id) {
        titles[id]
    } else {
        "Unknown"@
    }
}

/// The frequency row of an event ID and its count: count, percentage of
/// `total`, ID and title.
pub open spec fn frequency_row(
    e: (Seq<char>, usize),
    total: nat,
    titles: Map<Seq<char>, Seq<char>>,
) -> Seq<Seq<char>> {
    seq![decimal(e.1 as nat), percent_text(e.1 as nat, total), e.0, title_or_unknown(titles, e.0)]
}

/// The frequency rows of a listing of event counts.
pub open spec fn frequency_rows(
    s: Seq<(Seq<char>, usize)>,
    total: nat,
    titles: Map<Seq<char>, Seq<char>>,
) -> Seq<Seq<Seq<char>>> {
    s.map_values(|e: (Seq<char>, usize)| frequency_row(e, total, titles))
}

/// A user key without its first and last characters, the quotes that
/// surround the user name.
pub open spec fn unquoted(key: Seq<char>) -> Seq<char> {
    key.subrange(1, key.len() - 1)
}

/// The logon row of a user: name, failed logons, successful logons.
pub open spec fn logon_row(e: (Seq<char>, (usize, usize))) -> Seq<Seq<char>> {
    seq![unquoted(e.0), decimal(e.1.1 as nat), decimal(e.1.0 as nat)]
}

/// The logon rows of a listing of logon counts.
pub open spec fn logon_rows(s: Seq<(Seq<char>, (usize, usize))>) -> Seq<Seq<Seq<char>>> {
    s.map_values(|e: (Seq<char>, (usize, usize))| logon_row(e))
}

/// The rule that opens a report.
pub open spec fn rule_line() -> Seq<char> {
    "---------------------------------------"@
}

/// The lines that open both reports: the file, the record total and the
/// time range.
pub open spec fn summary_lines(m: EventMetrics) -> Seq<Seq<char>> {
    seq![
        rule_line(),
        "Evtx File Path: "@ + m.filepath@,
        "Total Event Records: "@ + decimal(m.total as nat) + "\n"@,
        "First Timestamp: "@ + m.start_time@,
        "Last Timestamp: "@ + m.end_time@ + "\n"@,
    ]
}

/// The column titles of the frequency table.
pub open spec fn frequency_header() -> Seq<Seq<char>> {
    seq!["Count"@, "Percent"@, "ID"@, "Event"@]
}

/// The column titles of the logon table.
pub open spec fn logon_header() -> Seq<Seq<char>> {
    seq!["User"@, "Failed"@, "Successful"@]
}

/// The frequency report: the opening lines and the table of event IDs by
/// count, larger first, equal counts by ID.
pub open spec fn frequency_report(m: EventMetrics, titles: Map<Seq<char>, Seq<char>>) -> Seq<
    Seq<char>,
> {
    summary_lines(m).push(
        drawn_table(
            frequency_header(),
            frequency_rows(sorted_counts(event_counts(m.stats_list)), m.total as nat, titles),
        ),
    )
}

/// The boxed notice printed where no logon was counted.
pub open spec fn no_logon_lines() -> Seq<Seq<char>> {
    seq![
        "-----------------------------------------"@,
        "|     No logon events were detected.    |"@,
        "-----------------------------------------\n"@,
    ]
}

/// Some user key of `m` is too short to be unquoted.
pub open spec fn has_malformed_key(m: Map<Seq<char>, (usize, usize)>) -> bool {
    exists|k: Seq<char>| #[trigger] m.contains_key(k) && k.len() < 2
}

/// `k` is the first user key, in logon order, too short to be unquoted.
pub open spec fn first_malformed_key(m: Map<Seq<char>, (usize, usize)>, k: Seq<char>) -> bool {
    let s = sorted_logons(m);
    &&& m.contains_key(k)
    &&& k.len() < 2
    &&& exists|j: int|
        0 <= j < s.len() && #[trigger] s[j].0 == k && forall|i: int|
            0 <= i < j ==> (#[trigger] s[i]).0.len() >= 2
}

/// The logon report: the opening lines, a rule, the title, then the table of
/// users by key, or the notice where there is none.
pub open spec fn logon_report(m: EventMetrics) -> Seq<Seq<char>> {
    let logons = logon_counts(m.stats_login_list);
    let head = summary_lines(m).push(rule_line()).push("Logon Summary"@);
    if logons == Map::<Seq<char>, (usize, usize)>::empty() {
        head + no_logon_lines()
    } else {
        head + seq![drawn_table(logon_header(), logon_rows(sorted_logons(logons))), Seq::<char>::empty()]
    }
}

/// The opening lines of both reports.
fn summary_msgs(m: &EventMetrics) -> (r: Vec<String>)
    ensures
        strings_view(r@) == summary_lines(*m),
{
    let mut msgs: Vec<String> = Vec::new();
    msgs.push(String::from_str("---------------------------------------"));
    let mut path = String::from_str("Evtx File Path: ");
    path.append(m.filepath.as_str());
    msgs.push(path);
    let mut total = String::from_str("Total Event Records: ");
    let digits = decimal_text(m.total as u128);
    total.append(digits.as_str());
    total.append("\n");
    msgs.push(total);
    let mut first = String::from_str("First Timestamp: ");
    first.append(m.start_time.as_str());
    msgs.push(first);
    let mut last = String::from_str("Last Timestamp: ");
    last.append(m.end_time.as_str());
    last.append("\n");
    msgs.push(last);
    assert(strings_view(msgs@) =~= summary_lines(*m));
    msgs
}

/// `v` as strings.
fn owned_strings(v: &Vec<&str>) -> (r: Vec<String>)
    ensures
        strings_view(r@) == v@.map_values(|s: &str| s@),
{
    let mut r: Vec<String> = Vec::new();
    let mut i: usize = 0;
    while i < v.len()
        invariant
            i <= v.len(),
            r@.len() == i,
            forall|j: int| 0 <= j < i ==> r@[j]@ == v@[j]@,
        decreases v.len() - i,
    {
        r.push(String::from_str(v[i]));
        i = i + 1;
    }
    assert(strings_view(r@) =~= v@.map_values(|s: &str| s@));
    r
}

/// Drops the first and last characters of a user key, the quotes around the
/// user name; `None` where the key is shorter than two characters.
pub fn strip_user_key(key: &String) -> (r: Option<String>)
    ensures
        r is None <==> key@.len() < 2,
        r matches Some(name) ==> name@ == unquoted(key@),
{
    let k = key.as_str();
    let n = k.unicode_len();
    if n < 2 {
        None
    } else {
        Some(String::from_str(k.substring_char(1, n - 1)))
    }
}

/// A session that reports on one set of counters.
pub struct Timeline {
    pub stats: EventMetrics,
}

impl Default for Timeline {
    /// The same as `Timeline::new`.
    fn default() -> (r: Timeline)
        ensures
            r.stats.total == 0,
            r.stats.filepath@ == Seq::<char>::empty(),
            r.stats.start_time@ == Seq::<char>::empty(),
            r.stats.end_time@ == Seq::<char>::empty(),
            event_counts(r.stats.stats_list) == Map::<Seq<char>, usize>::empty(),
            logon_counts(r.stats.stats_login_list) == Map::<Seq<char>, (usize, usize)>::empty(),
    {
        Timeline::new()
    }
}

/// The logon row of each entry of `mapsorted`, in order: the user name
/// unquoted, failed logons, successful logons. An error names the first user
/// key too short to be unquoted.
pub fn logon_table_rows(mapsorted: &Vec<(String, (usize, usize))>) -> (r: Result<
    Vec<Vec<String>>,
    ReportError,
>)
    ensures
        r is Err <==> exists|j: int|
            0 <= j < mapsorted@.len() && (#[trigger] mapsorted@[j]).0@.len() < 2,
        r matches Ok(rows) ==> cells_view(rows@) == logon_rows(keyed_view(mapsorted@)),
        r matches Err(ReportError::MalformedUserKey(k)) ==> k@.len() < 2 && exists|j: int|
            0 <= j < mapsorted@.len() && (#[trigger] mapsorted@[j]).0@ == k@ && forall|i: int|
                0 <= i < j ==> (#[trigger] mapsorted@[i]).0@.len() >= 2,
{
    let ghost sv = keyed_view(mapsorted@);
    let mut rows: Vec<Vec<String>> = Vec::new();
    let mut i: usize = 0;
    while i < mapsorted.len()
        invariant
            i <= mapsorted.len(),
            sv == keyed_view(mapsorted@),
            rows@.len() == i,
            forall|j: int| 0 <= j < i ==> (#[trigger] mapsorted@[j]).0@.len() >= 2,
            forall|j: int| 0 <= j < i ==> strings_view(#[trigger] rows@[j]@) == logon_row(sv[j]),
        decreases mapsorted.len() - i,
    {
        let key = &mapsorted[i].0;
        let values = mapsorted[i].1;
        assert(sv[i as int] == (key@, values));
        let username = match strip_user_key(key) {
            Some(name) => name,
            None => {
                let bad = key.clone();
                assert(mapsorted@[i as int].0@ == bad@);
                assert(forall|k: int| 0 <= k < i ==> (#[trigger] mapsorted@[k]).0@.len() >= 2);
                return Err(ReportError::MalformedUserKey(bad));
            },
        };
        let mut row: Vec<String> = Vec::new();
        row.push(username);
        row.push(decimal_text(values.1 as u128));
        row.push(decimal_text(values.0 as u128));
        assert(strings_view(row@) =~= logon_row(sv[i as int]));
        rows.push(row);
        i = i + 1;
    }
    assert(cells_view(rows@) =~= logon_rows(sv));
    Ok(rows)
}

impl Timeline {
    /// A session over empty counters: no records, no file, no time range.
    pub fn new() -> (r: Timeline)
        ensures
            r.stats.total == 0,
            r.stats.filepath@ == Seq::<char>::empty(),
            r.stats.start_time@ == Seq::<char>::empty(),
            r.stats.end_time@ == Seq::<char>::empty(),
            event_counts(r.stats.stats_list) == Map::<Seq<char>, usize>::empty(),
            logon_counts(r.stats.stats_login_list) == Map::<Seq<char>, (usize, usize)>::empty(),
    {
        let totalcnt: usize = 0;
        let filepath = String::new();
        let starttm = String::new();
        let endtm = String::new();
        let statistic = EventMetrics::new(totalcnt, filepath, starttm, endtm);
        Timeline { stats: statistic }
    }

    /// Takes the counters gathered over a batch of records as the ones to
    /// report on.
    pub fn start(&mut self, stats: EventMetrics)
        ensures
            final(self).stats == stats,
    {
        self.stats = stats;
    }

    /// The lines of the frequency report, or none where it is not wanted.
    pub fn tm_stats_dsp_msg(&self, flags: &ReportFlags, catalog: &EventCatalog) -> (r: Vec<
        String,
    >)
        ensures
            strings_view(r@) == (if flags.metrics {
                frequency_report(self.stats, catalog_titles(*catalog))
            } else {
                Seq::<Seq<char>>::empty()
            }),
    {
        if !flags.metrics {
            let r: Vec<String> = Vec::new();
            assert(strings_view(r@) =~= Seq::<Seq<char>>::empty());
            return r;
        }
        let mut sammsges = summary_msgs(&self.stats);
        let header = owned_strings(&vec!["Count", "Percent", "ID", "Event"]);
        let mapsorted = sorted_event_counts(&self.stats.stats_list);
        let stats_msges = self.tm_stats_set_msg(&mapsorted, catalog);
        let drawn = draw_table(&header, &stats_msges);
        let ghost before = strings_view(sammsges@);
        sammsges.push(drawn);
        proof {
            reveal_strlit("Count");
            reveal_strlit("Percent");
            reveal_strlit("ID");
            reveal_strlit("Event");
            assert(strings_view(header@) =~= frequency_header());
            assert(strings_view(sammsges@) =~= before.push(drawn@));
        }
        sammsges
    }

    /// The frequency row of each entry of `mapsorted`, in order: count,
    /// percentage of the record total, event ID and its title.
    pub fn tm_stats_set_msg(&self, mapsorted: &Vec<(String, usize)>, catalog: &EventCatalog) -> (r: Vec<
        Vec<String>,
    >)
        ensures
            cells_view(r@) == frequency_rows(
                keyed_view(mapsorted@),
                self.stats.total as nat,
                catalog_titles(*catalog),
            ),
    {
        let ghost titles = catalog_titles(*catalog);
        let ghost total = self.stats.total as nat;
        let mut msges: Vec<Vec<String>> = Vec::new();
        let mut i: usize = 0;
        while i < mapsorted.len()
            invariant
                i <= mapsorted.len(),
                msges@.len() == i,
                titles == catalog_titles(*catalog),
                total == self.stats.total as nat,
                forall|j: int|
                    0 <= j < i ==> strings_view(#[trigger] msges@[j]@) == frequency_row(
                        keyed_view(mapsorted@)[j],
                        total,
                        titles,
                    ),
            decreases mapsorted.len() - i,
        {
            let event_id = &mapsorted[i].0;
            let event_cnt = mapsorted[i].1;
            let title = match catalog.get_event_id(event_id) {
                Some(t) => t,
                None => {
                    proof {
                        reveal_strlit("Unknown");
                    }
                    String::from_str("Unknown")
                },
            };
            let mut row: Vec<String> = Vec::new();
            row.push(decimal_text(event_cnt as u128));
            row.push(format_percent(event_cnt, self.stats.total));
            row.push(event_id.clone());
            row.push(title);
            assert(strings_view(row@) =~= frequency_row(keyed_view(mapsorted@)[i as int], total, titles));
            msges.push(row);
            i = i + 1;
        }
        assert(cells_view(msges@) =~= frequency_rows(keyed_view(mapsorted@), total, titles));
        msges
    }
}

impl Timeline {
    /// The lines of the logon report, or none where it is not wanted; an
    /// error where a user key is too short to be unquoted.
    pub fn tm_logon_stats_dsp_msg(&self, flags: &ReportFlags) -> (r: Result<Vec<String>, ReportError>)
        ensures
            !flags.logon_summary ==> (r matches Ok(v) && v@.len() == 0),
            flags.logon_summary ==> (r is Err <==> has_malformed_key(
                logon_counts(self.stats.stats_login_list),
            )),
            flags.logon_summary ==> (r matches Ok(v) ==> strings_view(v@) == logon_report(self.stats)),
            r matches Err(ReportError::MalformedUserKey(k)) ==> first_malformed_key(
                logon_counts(self.stats.stats_login_list),
                k@,
            ),
    {
        if !flags.logon_summary {
            return Ok(Vec::new());
        }
        let mut sammsges = summary_msgs(&self.stats);
        sammsges.push(String::from_str("---------------------------------------"));
        let ghost head = strings_view(sammsges@);
        let mut body = self.tm_loginstats_tb_set_msg()?;
        let ghost tail = strings_view(body@);
        sammsges.append(&mut body);
        proof {
            let m = self.stats;
            assert(head =~= summary_lines(m).push(rule_line()));
            assert(strings_view(sammsges@) =~= head + tail);
        }
        Ok(sammsges)
    }

    /// The title of the logon report and its table, or the notice where no
    /// logon was counted.
    fn tm_loginstats_tb_set_msg(&self) -> (r: Result<Vec<String>, ReportError>)
        ensures
            r is Err <==> has_malformed_key(logon_counts(self.stats.stats_login_list)),
            r matches Ok(v) ==> strings_view(v@) == (if logon_counts(self.stats.stats_login_list)
                == Map::<Seq<char>, (usize, usize)>::empty() {
                seq!["Logon Summary"@] + no_logon_lines()
            } else {
                seq![
                    "Logon Summary"@,
                    drawn_table(logon_header(), logon_rows(sorted_logons(logon_counts(self.stats.stats_login_list)))),
                    Seq::<char>::empty(),
                ]
            }),
            r matches Err(ReportError::MalformedUserKey(k)) ==> first_malformed_key(
                logon_counts(self.stats.stats_login_list),
                k@,
            ),
    {
        let ghost m = logon_counts(self.stats.stats_login_list);
        let mut lines: Vec<String> = Vec::new();
        lines.push(String::from_str("Logon Summary"));
        let mapsorted = sorted_logon_counts(&self.stats.stats_login_list);
        let ghost sv = keyed_view(mapsorted@);

        if mapsorted.len() == 0 {
            lines.push(String::from_str("-----------------------------------------"));
            lines.push(String::from_str("|     No logon events were detected.    |"));
            lines.push(String::from_str("-----------------------------------------\n"));
            proof {
                assert forall|k: Seq<char>| !m.contains_key(k) by {
                    if m.contains_key(k) {
                        assert(sv.contains((k, m[k])));
                    }
                }
                assert(m =~= Map::<Seq<char>, (usize, usize)>::empty());
                assert(strings_view(lines@) =~= seq!["Logon Summary"@] + no_logon_lines());
            }
            return Ok(lines);
        }
        let header = owned_strings(&vec!["User", "Failed", "Successful"]);
        let rows = match logon_table_rows(&mapsorted) {
            Ok(rows) => rows,
            Err(e) => {
                proof {
                    let j = choose|j: int|
                        0 <= j < mapsorted@.len() && (#[trigger] mapsorted@[j]).0@.len() < 2;
                    assert(sv[j].0 == mapsorted@[j].0@);
                    assert(m.contains_key(sv[j].0));
                    let ReportError::MalformedUserKey(k) = e;
                    let i = choose|i: int|
                        0 <= i < mapsorted@.len() && (#[trigger] mapsorted@[i]).0@ == k@ && forall|
                            l: int,
                        | 0 <= l < i ==> (#[trigger] mapsorted@[l]).0@.len() >= 2;
                    assert(sv[i].0 == mapsorted@[i].0@);
                    assert(m.contains_key(sv[i].0));
                    assert forall|l: int| 0 <= l < i implies (#[trigger] sv[l]).0.len() >= 2 by {
                        assert(sv[l].0 == mapsorted@[l].0@);
                    }
                    assert(first_malformed_key(m, k@));
                }
                return Err(e);
            },
        };
        proof {
            assert forall|k: Seq<char>| #[trigger] m.contains_key(k) implies k.len() >= 2 by {
                assert(sv.contains((k, m[k])));
                let j = choose|j: int| 0 <= j < sv.len() && sv[j] == (k, m[k]);
                assert(sv[j].0.len() >= 2);
            }
            assert(sv.len() > 0);
            assert(m.contains_key(sv[0].0));
            assert(m != Map::<Seq<char>, (usize, usize)>::empty());
        }
        lines.push(draw_table(&header, &rows));
        lines.push(String::new());
        proof {
            reveal_strlit("User");
            reveal_strlit("Failed");
            reveal_strlit("Successful");
            assert(strings_view(header@) =~= logon_header());
            assert(cells_view(rows@) =~= logon_rows(sv));
            assert(strings_view(lines@) =~= seq![
                "Logon Summary"@,
                drawn_table(logon_header(), logon_rows(sv)),
                Seq::<char>::empty(),
            ]);
        }
        Ok(lines)
    }
}

} // verus!
