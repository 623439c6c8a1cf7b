//! What a client tells its user of a session.

use vstd::prelude::*;
use vstd::string::*;

use crate::message::{display_views, DisplayInfo, DisplayView};
use crate::settings::opt_text;
use crate::text::{decimal, push_decimal, push_signed, signed_decimal, texts};
use crate::transfers::{Progress, ProgressView};

verus! {

/// What came of a session.
#[derive(Debug, Clone, PartialEq, Eq)]
pub struct SessionReport {
    pub displays: Vec<DisplayInfo>,
    pub frames_decoded: u32,
    /// The displays whose picture changed, in ascending order.
    pub displays_with_motion: Vec<u32>,
    pub sent_ok: bool,
    pub received_path: Option<String>,
}

/// A [`SessionReport`] over sequences.
#[verifier::ext_equal]
pub struct ReportView {
    pub displays: Seq<DisplayView>,
    pub frames_decoded: u32,
    pub displays_with_motion: Seq<u32>,
    pub sent_ok: bool,
    pub received_path: Option<Seq<char>>,
}

impl View for SessionReport {
    type V = ReportView;

    open spec fn view(&self) -> ReportView {
        ReportView {
            displays: display_views(self.displays@),
            frames_decoded: self.frames_decoded,
            displays_with_motion: self.displays_with_motion@,
            sent_ok: self.sent_ok,
            received_path: opt_text(self.received_path),
        }
    }
}

/// Numbers with a separator between them.
pub open spec fn listed(ids: Seq<u32>, sep: Seq<char>) -> Seq<char>
    decreases ids.len(),
{
    if ids.len() == 0 {
        seq![]
    } else if ids.len() == 1 {
        decimal(ids[0] as nat)
    } else {
        listed(ids.drop_last(), sep) + sep + decimal(ids.last() as nat)
    }
}

/// Adds numbers with a separator between them to the end of `out`.
fn push_list(out: &mut String, ids: &Vec<u32>, sep: &str)
    ensures
        final(out)@ == old(out)@ + listed(ids@, sep@),
{
    let n: usize = ids.len();
    let ghost before = out@;
    assert(before + listed(ids@.take(0), sep@) =~= before);
    for i in 0..n
        invariant
            n == ids@.len(),
            out@ == before + listed(ids@.take(i as int), sep@),
    {
        assert(ids@.take(i + 1).drop_last() =~= ids@.take(i as int));
        if i > 0 {
            out.append(sep);
        }
        push_decimal(out, ids[i] as u64);
        assert(out@ =~= before + listed(ids@.take(i + 1), sep@));
    }
    assert(ids@.take(n as int) =~= ids@);
}

pub open spec fn bool_text(b: bool) -> Seq<char> {
    if b {
        "true"@
    } else {
        "false"@
    }
}

/// A line on a display: its id, its name, its size, its place and its scale.
pub open spec fn display_line(d: DisplayView) -> Seq<char> {
    "display "@ + decimal(d.id as nat) + " "@ + d.name + " "@ + decimal(d.width as nat) + "x"@
        + decimal(d.height as nat) + " at "@ + signed_decimal(d.x as int) + ","@ + signed_decimal(
        d.y as int,
    ) + " scale "@ + decimal(d.scale_percent as nat) + "%"@
}

fn line_of(d: &DisplayInfo) -> (r: String)
    ensures
        r@ == display_line(d@),
{
    let mut out = "display ".to_owned();
    push_decimal(&mut out, d.id as u64);
    out.append(" ");
    out.append(d.name.as_str());
    out.append(" ");
    push_decimal(&mut out, d.width as u64);
    out.append("x");
    push_decimal(&mut out, d.height as u64);
    out.append(" at ");
    push_signed(&mut out, d.x);
    out.append(",");
    push_signed(&mut out, d.y);
    out.append(" scale ");
    push_decimal(&mut out, d.scale_percent as u64);
    out.append("%");
    out
}

impl ReportView {
    /// The report in one line.
    pub open spec fn text(self) -> Seq<char> {
        decimal(self.displays.len()) + " displays, "@ + decimal(self.frames_decoded as nat)
            + " frames, motion ["@ + listed(self.displays_with_motion, ", "@) + "], sent "@
            + bool_text(self.sent_ok) + ", received "@ + match self.received_path {
            Some(path) => path,
            None => "none"@,
        }
    }

    /// The lines on the displays.
    pub open spec fn display_lines(self) -> Seq<Seq<char>> {
        self.displays.map_values(|d: DisplayView| display_line(d))
    }

    /// The report in lines: the displays, the frames, and the files.
    pub open spec fn lines(self) -> Seq<Seq<char>> {
        seq!["displays "@ + decimal(self.displays.len())] + self.display_lines() + seq![
            "frames "@ + decimal(self.frames_decoded as nat),
            "motion "@ + listed(self.displays_with_motion, ","@),
        ] + match self.received_path {
            Some(path) => seq!["received "@ + path],
            None => seq![],
        } + seq![
            if self.sent_ok {
                "sent ok"@
            } else {
                "sent none"@
            },
        ]
    }
}

impl SessionReport {
    /// The report in one line.
    pub fn text(&self) -> (r: String)
        ensures
            r@ == self@.text(),
    {
        let mut out = String::new();
        push_decimal(&mut out, self.displays.len() as u64);
        assert(out@ =~= decimal(self@.displays.len()));
        out.append(" displays, ");
        push_decimal(&mut out, self.frames_decoded as u64);
        out.append(" frames, motion [");
        push_list(&mut out, &self.displays_with_motion, ", ");
        out.append("], sent ");
        out.append(
            if self.sent_ok {
                "true"
            } else {
                "false"
            },
        );
        out.append(", received ");
        match &self.received_path {
            Some(path) => out.append(path.as_str()),
            None => out.append("none"),
        }
        out
    }

    /// The report in lines.
    pub fn lines(&self) -> (r: Vec<String>)
        ensures
            texts(r@) == self@.lines(),
    {
        let mut out: Vec<String> = Vec::new();
        let mut line = "displays ".to_owned();
        push_decimal(&mut line, self.displays.len() as u64);
        out.push(line);
        let ghost head = seq!["displays "@ + decimal(self@.displays.len())];
        assert(texts(out@) =~= head + self@.display_lines().take(0));
        for i in 0..self.displays.len()
            invariant
                texts(out@) == head + self@.display_lines().take(i as int),
        {
            let ghost before = out@;
            out.push(line_of(&self.displays[i]));
            assert(texts(out@) =~= texts(before).push(display_line(self@.displays[i as int])));
            assert(texts(out@) =~= head + self@.display_lines().take(i + 1));
        }
        let ghost start = out@;
        assert(texts(start) =~= head + self@.display_lines());
        let mut line = "frames ".to_owned();
        push_decimal(&mut line, self.frames_decoded as u64);
        out.push(line);
        let mut line = "motion ".to_owned();
        push_list(&mut line, &self.displays_with_motion, ",");
        out.push(line);
        if let Some(path) = &self.received_path {
            let mut line = "received ".to_owned();
            line.append(path.as_str());
            out.push(line);
        }
        if self.sent_ok {
            out.push("sent ok".to_owned());
        } else {
            out.push("sent none".to_owned());
        }
        assert(texts(out@) =~= self@.lines()) by {
            assert(out@.take(start.len() as int) =~= start);
            assert(texts(out@).take(start.len() as int) =~= texts(start));
        }
        out
    }
}

/// What is said of a transfer.
pub open spec fn file_status_spec(p: ProgressView) -> Seq<char> {
    (if p.incoming {
        "Receiving "@
    } else {
        "Sending "@
    }) + p.name + ": "@ + decimal(p.transferred as nat) + "/"@ + decimal(p.total as nat)
        + " bytes ("@ + (if p.done {
        "done"@
    } else {
        "in progress"@
    }) + ")"@
}

/// What is said of a transfer.
pub fn file_status(p: &Progress) -> (r: String)
    ensures
        r@ == file_status_spec(p@),
{
    let mut out = (if p.incoming {
        "Receiving "
    } else {
        "Sending "
    }).to_owned();
    out.append(p.name.as_str());
    out.append(": ");
    push_decimal(&mut out, p.transferred);
    out.append("/");
    push_decimal(&mut out, p.total);
    out.append(" bytes (");
    out.append(
        if p.done {
            "done"
        } else {
            "in progress"
        },
    );
    out.append(")");
    out
}

/// The label of a display: its name, its size and its scale.
pub open spec fn label_of(d: DisplayView) -> Seq<char> {
    d.name + "    "@ + decimal(d.width as nat) + "×"@ + decimal(d.height as nat) + "    "@
        + decimal(d.scale_percent as nat) + "%"@
}

/// The label of a display.
pub fn display_label(d: &DisplayInfo) -> (r: String)
    ensures
        r@ == label_of(d@),
{
    let mut out = d.name.as_str().to_owned();
    out.append("    ");
    push_decimal(&mut out, d.width as u64);
    out.append("×");
    push_decimal(&mut out, d.height as u64);
    out.append("    ");
    push_decimal(&mut out, d.scale_percent as u64);
    out.append("%");
    out
}

/// Numbers are listed in their order, with the separator between each two.
pub proof fn lists_have_separators(ids: Seq<u32>, id: u32, sep: Seq<char>)
    ensures
        listed(seq![], sep).len() == 0,
        listed(seq![id], sep) == decimal(id as nat),
        ids.len() > 0 ==> listed(ids.push(id), sep) == listed(ids, sep) + sep + decimal(id as nat),
{
    assert(ids.push(id).drop_last() =~= ids);
}

/// What is said of a display: which it is, how large, where, and at which scale.
pub proof fn displays_in_words(d: DisplayView)
    ensures
        display_line(d) == "display "@ + decimal(d.id as nat) + " "@ + d.name + " "@ + decimal(
            d.width as nat,
        ) + "x"@ + decimal(d.height as nat) + " at "@ + signed_decimal(d.x as int) + ","@
            + signed_decimal(d.y as int) + " scale "@ + decimal(d.scale_percent as nat) + "%"@,
        label_of(d) == d.name + "    "@ + decimal(d.width as nat) + "×"@ + decimal(d.height as nat)
            + "    "@ + decimal(d.scale_percent as nat) + "%"@,
{
}

/// What is said of a file: which way it goes, its name, how many of its bytes are there,
/// and whether those are all.
pub proof fn files_in_words(name: Seq<char>, transferred: u64, total: u64)
    ensures
        ({
            let said = name + ": "@ + decimal(transferred as nat) + "/"@ + decimal(total as nat)
                + " bytes ("@;
            let p = |incoming: bool, done: bool|
                ProgressView { incoming, name, transferred, total, done };
            &&& file_status_spec(p(true, true)) == "Receiving "@ + said + "done"@ + ")"@
            &&& file_status_spec(p(true, false)) == "Receiving "@ + said + "in progress"@ + ")"@
            &&& file_status_spec(p(false, true)) == "Sending "@ + said + "done"@ + ")"@
            &&& file_status_spec(p(false, false)) == "Sending "@ + said + "in progress"@ + ")"@
        }),
{
    let said = name + ": "@ + decimal(transferred as nat) + "/"@ + decimal(total as nat)
        + " bytes ("@;
    let p = |incoming: bool, done: bool| ProgressView { incoming, name, transferred, total, done };
    assert(file_status_spec(p(true, true)) =~= "Receiving "@ + said + "done"@ + ")"@);
    assert(file_status_spec(p(true, false)) =~= "Receiving "@ + said + "in progress"@ + ")"@);
    assert(file_status_spec(p(false, true)) =~= "Sending "@ + said + "done"@ + ")"@);
    assert(file_status_spec(p(false, false)) =~= "Sending "@ + said + "in progress"@ + ")"@);
}

/// What is said of a session, line for line: how many displays it had, and each of them;
/// how many frames, and which displays moved; what was received; and whether a file was
/// sent.
pub proof fn reports_in_lines(r: ReportView, i: int)
    requires
        0 <= i < r.displays.len(),
    ensures
        ({
            let l = r.lines();
            let n = r.displays.len() as int;
            let last = if r.received_path is Some {
                n + 4
            } else {
                n + 3
            };
            &&& l.len() == last + 1
            &&& l[0] == "displays "@ + decimal(r.displays.len())
            &&& l[1 + i] == display_line(r.displays[i])
            &&& l[n + 1] == "frames "@ + decimal(r.frames_decoded as nat)
            &&& l[n + 2] == "motion "@ + listed(r.displays_with_motion, ","@)
            &&& r.received_path matches Some(path) ==> l[n + 3] == "received "@ + path
            &&& r.sent_ok ==> l[last] == "sent ok"@
            &&& !r.sent_ok ==> l[last] == "sent none"@
        }),
{
}

/// What is said of a session in one line.
pub proof fn reports_in_one_line(r: ReportView)
    ensures
        r.text() == decimal(r.displays.len()) + " displays, "@ + decimal(r.frames_decoded as nat)
            + " frames, motion ["@ + listed(r.displays_with_motion, ", "@) + "], sent "@ + (
        if r.sent_ok {
            "true"@
        } else {
            "false"@
        }) + ", received "@ + (if r.received_path is Some {
            r.received_path->0
        } else {
            "none"@
        }),
{
}

} // verus!
