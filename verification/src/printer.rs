//! Rendering of difference reports.
//!
//! A report message carries a non-empty list of differences for one check;
//! rendering one message is a pure function of the message, so a consumer
//! that renders messages one at a time prints fully separated blocks,
//! never interleaving two checks' output.

use vstd::prelude::*;
use vstd::string::StringExecFns;

verus! {

use crate::diff::Difference;
use crate::diff::DifferenceModel;
use crate::diff::facts_view;
use crate::strutil::dec_str;
use crate::strutil::take_chars;
use crate::strutil::u16_to_string;
use crate::strutil::usize_to_string;

/// A request to report the differences found for one check.
pub enum DifferencesPrinterMessage {
    PrintDifferences { differences: Vec<Difference>, request_id: String },
}

/// The rendered lines of one difference fact.
pub open spec fn render_fact(d: DifferenceModel) -> Seq<char> {
    match d {
        DifferenceModel::StatusCodeChanged { old_val, new_val } => "  Status Code Difference:\n    - "@
            + dec_str(old_val as nat) + "\n    + "@ + dec_str(new_val as nat) + "\n"@,
        DifferenceModel::HeaderValueChanged { header_name, old_val, new_val } => "    Changed Header: "@
            + header_name + "\n      - "@ + old_val + "\n      + "@ + new_val + "\n"@,
        DifferenceModel::HeaderValueRemoved { header_name } => "    Removed Header: "@
            + header_name + "\n"@,
        DifferenceModel::HeaderValueAdded { header_name } => "    Added Header: "@ + header_name
            + "\n"@,
        DifferenceModel::BodyValueChanged { path, old_val, new_val } => "    Changed body value at '"@
            + path + "' \n      - "@ + old_val + "\n      + "@ + new_val + "\n"@,
        DifferenceModel::BodyValueRemoved { path, value } => "    Removed body value at '"@ + path
            + "' \n      - "@ + value + "\n"@,
        DifferenceModel::BodyValueAdded { path, value } => "    Added body value at '"@ + path
            + "' \n      + "@ + value + "\n"@,
        DifferenceModel::ArrayLengthChanged { path, old_len, new_len } => "    Array length changed at '"@
            + path + "' \n      - length: "@ + dec_str(old_len as nat) + "\n      + length: "@
            + dec_str(new_len as nat) + "\n"@,
        DifferenceModel::ArrayElementRemoved { path, value } => "    Array element removed at '"@
            + path + "' \n      - "@ + value + "\n"@,
        DifferenceModel::ArrayElementAdded { path, value } => "    Array element added at '"@
            + path + "' \n      + "@ + value + "\n"@,
        DifferenceModel::DifferentBodyString { before, after } => "\n  Body (non-JSON or invalid JSON):\n"@
            + if before.len() > 0 && after.len() > 0 {
                "    - "@ + prefix_100(before) + "...\n    + "@ + prefix_100(after) + "...\n"@
            } else {
                Seq::empty()
            },
    }
}

/// At most the first hundred characters of a body shown in a preview.
pub open spec fn prefix_100(s: Seq<char>) -> Seq<char> {
    if s.len() <= 100 {
        s
    } else {
        s.take(100)
    }
}

/// Renders one difference fact as indented report lines.
impl Difference {
    pub fn render(&self) -> (r: String)
        ensures
            r@ == render_fact(self@),
    {
        let mut out = String::new();
        match self {
            Difference::StatusCodeChanged { old_val, new_val } => {
                out.append("  Status Code Difference:\n    - ");
                let o = u16_to_string(*old_val);
                out.append(o.as_str());
                out.append("\n    + ");
                let n = u16_to_string(*new_val);
                out.append(n.as_str());
                out.append("\n");
            },
            Difference::HeaderValueChanged { header_name, old_val, new_val } => {
                out.append("    Changed Header: ");
                out.append(header_name.as_str());
                out.append("\n      - ");
                out.append(old_val.as_str());
                out.append("\n      + ");
                out.append(new_val.as_str());
                out.append("\n");
            },
            Difference::HeaderValueRemoved { header_name } => {
                out.append("    Removed Header: ");
                out.append(header_name.as_str());
                out.append("\n");
            },
            Difference::HeaderValueAdded { header_name } => {
                out.append("    Added Header: ");
                out.append(header_name.as_str());
                out.append("\n");
            },
            Difference::BodyValueChanged { path, old_val, new_val } => {
                out.append("    Changed body value at '");
                out.append(path.as_str());
                out.append("' \n      - ");
                out.append(old_val.as_str());
                out.append("\n      + ");
                out.append(new_val.as_str());
                out.append("\n");
            },
            Difference::BodyValueRemoved { path, value } => {
                out.append("    Removed body value at '");
                out.append(path.as_str());
                out.append("' \n      - ");
                out.append(value.as_str());
                out.append("\n");
            },
            Difference::BodyValueAdded { path, value } => {
                out.append("    Added body value at '");
                out.append(path.as_str());
                out.append("' \n      + ");
                out.append(value.as_str());
                out.append("\n");
            },
            Difference::ArrayLengthChanged { path, old_len, new_len } => {
                out.append("    Array length changed at '");
                out.append(path.as_str());
                out.append("' \n      - length: ");
                let o = usize_to_string(*old_len);
                out.append(o.as_str());
                out.append("\n      + length: ");
                let n = usize_to_string(*new_len);
                out.append(n.as_str());
                out.append("\n");
            },
            Difference::ArrayElementRemoved { path, value } => {
                out.append("    Array element removed at '");
                out.append(path.as_str());
                out.append("' \n      - ");
                out.append(value.as_str());
                out.append("\n");
            },
            Difference::ArrayElementAdded { path, value } => {
                out.append("    Array element added at '");
                out.append(path.as_str());
                out.append("' \n      + ");
                out.append(value.as_str());
                out.append("\n");
            },
            Difference::DifferentBodyString { before, after } => {
                out.append("\n  Body (non-JSON or invalid JSON):\n");
                if !before.as_str().is_empty() && !after.as_str().is_empty() {
                    out.append("    - ");
                    let b = take_chars(before.as_str(), 100);
                    out.append(b.as_str());
                    out.append("...\n    + ");
                    let a = take_chars(after.as_str(), 100);
                    out.append(a.as_str());
                    out.append("...\n");
                }
            },
        }
        proof {
            assert(out@ =~= render_fact(self@));
        }
        out
    }
}

/// The rendered lines of the facts from `i` on.
pub open spec fn render_facts_from(fs: Seq<DifferenceModel>, i: int) -> Seq<char>
    decreases fs.len() - i,
{
    if i < 0 || i >= fs.len() {
        Seq::empty()
    } else {
        render_fact(fs[i]) + render_facts_from(fs, i + 1)
    }
}

/// The body of one report block: a title naming the check, then the lines
/// of every difference, in order.
pub open spec fn report_text(fs: Seq<DifferenceModel>, request_id: Seq<char>) -> Seq<char> {
    "Differences detected for request with ID: '"@ + request_id + "'\n"@ + render_facts_from(
        fs,
        0,
    )
}

/// Renders one report block. A report always carries at least one
/// difference; the consumer prints one rendered block at a time, so blocks
/// from different checks never interleave.
#[verifier::loop_isolation(false)]
pub fn render_differences_report(differences: &Vec<Difference>, request_id: &str) -> (r: String)
    requires
        differences@.len() > 0,
    ensures
        r@ == report_text(facts_view(differences@), request_id@),
{
    let mut out = String::new();
    out.append("Differences detected for request with ID: '");
    out.append(request_id);
    out.append("'\n");
    let ghost title = "Differences detected for request with ID: '"@ + request_id@ + "'\n"@;
    proof {
        assert(out@ =~= title);
    }
    let mut i: usize = 0;
    while i < differences.len()
        invariant
            0 <= i <= differences@.len(),
            out@ + render_facts_from(facts_view(differences@), i as int) == title
                + render_facts_from(facts_view(differences@), 0),
        decreases differences@.len() - i,
    {
        let line = differences[i].render();
        out.append(line.as_str());
        proof {
            assert(facts_view(differences@)[i as int] == differences@[i as int]@);
            assert(out@ + render_facts_from(facts_view(differences@), i + 1) =~= title
                + render_facts_from(facts_view(differences@), 0));
        }
        i += 1;
    }
    proof {
        assert(out@ =~= report_text(facts_view(differences@), request_id@));
    }
    out
}

} // verus!
