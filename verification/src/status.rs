//! The report of the cluster's health on the command line.

use vstd::prelude::*;
use vstd::string::StringExecFns;

verus! {

/// The member of a health summary that holds the health of the cluster.
pub const STATUS_MEMBER: &'static str = "status";

/// The member of a health summary that holds the health of each backend.
pub const BACKENDS_MEMBER: &'static str = "backends";

/// What a health summary says: the health of the cluster, and the backends with
/// their health. Members that are missing, or not of their kind, are `None`.
pub struct StatusDocument {
    /// The health of the cluster.
    pub status: Option<String>,
    /// The backends with their health.
    pub backends: Option<Vec<(String, Option<String>)>>,
}

/// What a health summary says, in texts.
pub type StatusView = (Option<Seq<char>>, Option<Seq<(Seq<char>, Option<Seq<char>>)>>);

/// The text in an optional string.
pub open spec fn text_in(s: Option<String>) -> Option<Seq<char>> {
    match s {
        Some(s) => Some(s@),
        None => None,
    }
}

/// The texts in a list of backends.
pub open spec fn rows_in(rows: Seq<(String, Option<String>)>) -> Seq<
    (Seq<char>, Option<Seq<char>>),
> {
    Seq::new(rows.len(), |i: int| (rows[i].0@, text_in(rows[i].1)))
}

/// What a health summary says, in texts.
pub open spec fn document_view(document: StatusDocument) -> StatusView {
    (
        text_in(document.status),
        match document.backends {
            Some(rows) => Some(rows_in(rows@)),
            None => None,
        },
    )
}

/// What a health summary says, in texts; `None` for what is not JSON.
pub open spec fn summary_view(document: Option<StatusDocument>) -> Option<StatusView> {
    match document {
        Some(document) => Some(document_view(document)),
        None => None,
    }
}

/// What the JSON parser makes of a text, read at two members: the string in the
/// first, and the members of the object in the second with the strings in them.
pub uninterp spec fn json_members(
    json: Seq<char>,
    status: Seq<char>,
    backends: Seq<char>,
) -> Option<StatusView>;

/// `serde_json::from_str` to a `Value`, read with `Value`'s index, `as_str` and
/// `as_object`. The result is a function of the text and the two names, and is
/// called `json_members`; which texts are JSON, and what they hold, is not
/// stated.
#[verifier::external_body]
fn read_members(json: &str, status: &str, backends: &str) -> (r: Option<StatusDocument>)
    ensures
        summary_view(r) == json_members(json@, status@, backends@),
{
    let value: serde_json::Value = serde_json::from_str(json).ok()?;
    let owned = |v: &serde_json::Value| v.as_str().map(String::from);
    Some(StatusDocument {
        status: owned(&value[status]),
        backends: value[backends].as_object().map(|m| m.iter().map(|(k, v)| (k.clone(), owned(v))).collect()),
    })
}

/// The rule above and below the list of backends.
pub open spec fn ruler() -> Seq<char> {
    "-----------------------------------------------"@
}

/// A text, or `Unknown` where there is none.
pub open spec fn or_unknown(s: Option<Seq<char>>) -> Seq<char> {
    match s {
        Some(s) => s,
        None => "Unknown"@,
    }
}

/// The line for a backend.
pub open spec fn backend_line(row: (Seq<char>, Option<Seq<char>>)) -> Seq<char> {
    let state = or_unknown(row.1);
    (if state == "Healthy"@ {
        "✅"@
    } else {
        "❌"@
    }) + " "@ + row.0 + " ("@ + state + ")"@
}

/// The lines of the report.
pub open spec fn report_lines(view: StatusView) -> Seq<Seq<char>> {
    seq!["CLUSTER STATUS: "@ + or_unknown(view.0), ruler()] + (match view.1 {
        Some(rows) => Seq::new(rows.len(), |i: int| backend_line(rows[i])),
        None => Seq::empty(),
    }) + seq![ruler()]
}

fn render_row(row: &(String, Option<String>)) -> (r: String)
    ensures
        r@ == backend_line((row.0@, text_in(row.1))),
{
    let state = match &row.1 {
        Some(state) => state.clone(),
        None => "Unknown".to_owned(),
    };
    let mut line = if state == "Healthy".to_owned() {
        "✅".to_owned()
    } else {
        "❌".to_owned()
    };
    line.append(" ");
    line.append(row.0.as_str());
    line.append(" (");
    line.append(state.as_str());
    line.append(")");
    line
}

/// Renders the report of a health summary.
pub fn render_report(document: &StatusDocument) -> (r: Vec<String>)
    ensures
        crate::text::texts(r@) == report_lines(document_view(*document)),
{
    let mut lines: Vec<String> = Vec::new();
    let mut head = "CLUSTER STATUS: ".to_owned();
    head.append(
        match &document.status {
            Some(status) => status.as_str(),
            None => "Unknown",
        },
    );
    lines.push(head);
    lines.push("-----------------------------------------------".to_owned());
    let ghost opening = crate::text::texts(lines@);
    proof {
        assert(opening =~= seq![
            "CLUSTER STATUS: "@ + or_unknown(text_in(document.status)),
            ruler(),
        ]);
    }
    if let Some(rows) = &document.backends {
        let mut i: usize = 0;
        let ghost all = Seq::new(
            rows_in(rows@).len(),
            |j: int| backend_line(rows_in(rows@)[j]),
        );
        proof {
            assert(opening + all.take(0) =~= opening);
        }
        while i < rows.len()
            invariant
                i <= rows@.len(),
                all == Seq::new(
                    rows_in(rows@).len(),
                    |j: int| backend_line(rows_in(rows@)[j]),
                ),
                crate::text::texts(lines@) == opening + all.take(i as int),
            decreases rows@.len() - i,
        {
            let ghost before = crate::text::texts(lines@);
            lines.push(render_row(&rows[i]));
            i = i + 1;
            proof {
                assert(crate::text::texts(lines@) =~= before.push(all[i - 1]));
                assert(opening + all.take(i as int) =~= before.push(all[i - 1]));
            }
        }
        proof {
            assert(all.take(i as int) =~= all);
        }
    } else {
        proof {
            assert(opening + Seq::<Seq<char>>::empty() =~= opening);
        }
    }
    let ghost body = crate::text::texts(lines@);
    lines.push("-----------------------------------------------".to_owned());
    proof {
        assert(crate::text::texts(lines@) =~= body + seq![ruler()]);
    }
    lines
}

/// The report of a health summary in JSON; `None` for what is not JSON.
pub fn status_report(json: &str) -> (r: Option<Vec<String>>)
    ensures
        (match r {
            Some(lines) => Some(crate::text::texts(lines@)),
            None => None,
        }) == (match json_members(json@, STATUS_MEMBER@, BACKENDS_MEMBER@) {
            Some(view) => Some(report_lines(view)),
            None => None,
        }),
{
    match read_members(json, STATUS_MEMBER, BACKENDS_MEMBER) {
        Some(document) => Some(render_report(&document)),
        None => None,
    }
}

/// The report has a head with the health of the cluster, a line for each backend in order
/// between two rules, and nothing else. A backend that is reported as healthy is ticked,
/// any other crossed; what is not reported is unknown.
pub proof fn report_has_a_line_for_each_backend(
    document: StatusDocument,
    lines: Vec<String>,
    i: int,
)
    requires
        call_ensures(render_report, (&document,), lines),
    ensures
        lines@.len() >= 3,
        document.status matches Some(status) ==> lines@[0]@ == "CLUSTER STATUS: "@ + status@,
        document.status is None ==> lines@[0]@ == "CLUSTER STATUS: "@ + "Unknown"@,
        lines@[1]@ == lines@[lines@.len() - 1]@,
        document.backends is None ==> lines@.len() == 3,
        document.backends matches Some(rows) ==> {
            &&& lines@.len() == rows@.len() + 3
            &&& 0 <= i < rows@.len() ==> match rows@[i].1 {
                Some(state) => lines@[i + 2]@ == (if state@ == "Healthy"@ {
                    "✅"@
                } else {
                    "❌"@
                }) + " "@ + rows@[i].0@ + " ("@ + state@ + ")"@,
                None => lines@[i + 2]@ == "❌"@ + " "@ + rows@[i].0@ + " ("@ + "Unknown"@ + ")"@,
            }
        },
{
    let texts = crate::text::texts(lines@);
    assert(texts.len() == lines@.len());
    assert(forall|k: int| 0 <= k < lines@.len() ==> texts[k] == (#[trigger] lines@[k])@);
    reveal_strlit("Unknown");
    reveal_strlit("Healthy");
    assert("Unknown"@.len() == 7 && "Healthy"@.len() == 7);
    assert("Unknown"@[0] == 'U' && "Healthy"@[0] == 'H');
    let view = document_view(document);
    assert(texts == report_lines(view));
    assert(texts[0] == "CLUSTER STATUS: "@ + or_unknown(view.0));
    assert(texts[1] == ruler());
    if let Some(rows) = document.backends {
        assert(view.1->0 == rows_in(rows@));
        assert(texts.len() == rows@.len() + 3);
        if 0 <= i < rows@.len() {
            assert(texts[i + 2] == backend_line(rows_in(rows@)[i]));
            assert(lines@[i + 2]@ == texts[i + 2]);
        }
    }
    assert(texts[texts.len() - 1] == ruler());
}

/// The report of a text is that of what the JSON parser finds under `status` and
/// `backends`; there is none for what is not JSON. Its list of backends stands between two
/// rules of 47 dashes.
pub proof fn report_is_that_of_the_summary(json: &str, report: Option<Vec<String>>, i: int)
    requires
        call_ensures(status_report, (json,), report),
    ensures
        report is Some <==> json_members(json@, "status"@, "backends"@) is Some,
        report matches Some(lines) ==> {
            let view = json_members(json@, "status"@, "backends"@)->0;
            &&& lines@.len() >= 3
            &&& lines@[0]@ == "CLUSTER STATUS: "@ + (match view.0 {
                Some(status) => status,
                None => "Unknown"@,
            })
            &&& lines@[1]@.len() == 47
            &&& lines@[lines@.len() - 1]@.len() == 47
            &&& 0 <= i < 47 ==> lines@[1]@[i] == '-' && lines@[lines@.len() - 1]@[i] == '-'
            &&& view.1 is None ==> lines@.len() == 3
            &&& view.1 matches Some(rows) ==> lines@.len() == rows.len() + 3 && (0 <= i
                < rows.len() ==> lines@[i + 2]@ == (if rows[i].1 == Some("Healthy"@) {
                "✅"@
            } else {
                "❌"@
            }) + " "@ + rows[i].0 + " ("@ + (match rows[i].1 {
                Some(state) => state,
                None => "Unknown"@,
            }) + ")"@)
        },
{
    if let Some(lines) = report {
        let texts = crate::text::texts(lines@);
        let view = json_members(json@, "status"@, "backends"@)->0;
        assert(texts.len() == lines@.len());
        assert(forall|k: int| 0 <= k < lines@.len() ==> texts[k] == (#[trigger] lines@[k])@);
        assert(texts == report_lines(view));
        reveal_strlit("-----------------------------------------------");
        reveal_strlit("Unknown");
        reveal_strlit("Healthy");
        assert("Unknown"@[0] == 'U' && "Healthy"@[0] == 'H');
        assert(texts[0] == "CLUSTER STATUS: "@ + or_unknown(view.0));
        assert(texts[1] == ruler());
        assert(texts[texts.len() - 1] == ruler());
        assert(lines@[1]@ == ruler());
        assert(lines@[lines@.len() - 1]@ == ruler());
        if let Some(rows) = view.1 {
            assert(texts.len() == rows.len() + 3);
            if 0 <= i < rows.len() {
                assert(texts[i + 2] == backend_line(rows[i]));
            }
        }
    }
}

} // verus!
