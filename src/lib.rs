//! Event-log statistics: an event-ID frequency report and a per-user logon
//! summary, drawn from counters gathered over a batch of records.

mod maps;
mod metrics;
mod order;
mod rows;
mod table;
mod text;
mod timeline;

pub use maps::{EventCatalog, EventCounts, LogonCounts, catalog_titles, event_counts, logon_counts};
pub use metrics::{EventMetrics, bumped};
pub use order::{
    distinct_keys, key_less, key_lt, keyed_view, lemma_key_irreflexive, lemma_key_total,
    lemma_key_transitive, lemma_listing_len, lemma_map_listing_unique,
    lemma_sorted_listing_unique, lists_map, strict_order, strictly_sorted,
};
pub use rows::{
    count_before, count_order, lemma_count_order_strict, lemma_frequency_listing,
    lemma_logon_listing, lemma_logon_order_strict, logon_before, logon_order, sorted_counts,
    sorted_event_counts, sorted_logon_counts, sorted_logons,
};
pub use table::{cells_view, drawn_table, strings_view};
pub use text::{
    decimal, decimal_text, digit_char, format_percent, lemma_percent_rounds,
    lemma_percent_zero_total, percent_text, permille,
};
pub use timeline::{
    ReportError, ReportFlags, Timeline, first_malformed_key, frequency_header, frequency_report, frequency_row,
    frequency_rows, has_malformed_key, logon_header, logon_report, logon_row, logon_rows,
    logon_table_rows, no_logon_lines, rule_line, strip_user_key, summary_lines, title_or_unknown,
    unquoted,
};
