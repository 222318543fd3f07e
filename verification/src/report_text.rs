//! The text of the report of the differences between HTTP/3 and HTTP/2
//! requests.
use crate::leak::{is_sub, is_sub_spec};
use crate::report::{DiffType, GroupDiff, ReportDiff};
use crate::text::{str_eq, string_views};
use vstd::prelude::*;
use vstd::string::{StringExecFns, StringSliceAdditionalSpecFns};
use vstd::utf8::encode_utf8;

verus! {

pub open spec fn separator_text() -> Seq<char> {
    "\n\n= = = = = = = = = = = = = = = = = = = =\n\n"@
}

pub open spec fn end_text() -> Seq<char> {
    "\n\n+ + + + + + + + + + + + + + + + + + + +\n\n"@
}

/// A header value that the report leaves out.
pub open spec fn ignored_value_text() -> Seq<char> {
    "\"Android WebView\";v=\"129\", \"Not=A?Brand\";v=\"8\", \"Chromium\";v=\"129\""@
}

/// Each value on a line of its own.
pub open spec fn value_lines(vs: Seq<Seq<char>>) -> Seq<char>
    decreases vs.len(),
{
    if vs.len() == 0 {
        seq![]
    } else {
        value_lines(vs.drop_last()) + vs.last() + "\n"@
    }
}

/// The text of one difference. A body difference shows the first value; a
/// differing header shows the header and its first value, and nothing
/// (not even the separator) follows its heading where that value holds the
/// ignored text; a header seen only over HTTP/3 shows all its values.
pub open spec fn diff_section(d: ReportDiff) -> Seq<char> {
    let k = d.diff_header@;
    let vs = string_views(d.h3_vs@);
    if k == "body"@ {
        "\nhttp3 request has specific body:\n"@ + (if vs.len() > 0 {
            vs[0]
        } else {
            seq![]
        }) + separator_text()
    } else if d.diff == DiffType::DIFFERENT {
        "\nhttp3 request has different header:\n"@ + (if vs.len() == 0 {
            separator_text()
        } else if is_sub_spec(encode_utf8(vs[0]), encode_utf8(ignored_value_text())) {
            seq![]
        } else {
            "\nHeader: "@ + k + "\nValue in http3:\n"@ + vs[0] + "\n"@ + separator_text()
        })
    } else {
        "\nhttp3 request has distinct header:\n"@ + "\nHttp3 specific Header: "@ + k + "\n"@
            + "\nCaptured value of this header:\n"@ + value_lines(vs) + separator_text()
    }
}

pub open spec fn diff_sections(ds: Seq<ReportDiff>) -> Seq<char>
    decreases ds.len(),
{
    if ds.len() == 0 {
        seq![]
    } else {
        diff_sections(ds.drop_last()) + diff_section(ds.last())
    }
}

/// The report of the differences of the requests to one URI.
pub open spec fn group_diff_text(app: Seq<char>, uri: Seq<char>, ds: Seq<ReportDiff>) -> Seq<char> {
    "\n\nWhile using app: "@ + app + "\nUri: "@ + uri + "\n"@ + diff_sections(ds) + end_text()
}

/// The report of every group with differences, in order.
pub open spec fn groups_text(app: Seq<char>, gs: Seq<GroupDiff>) -> Seq<char>
    decreases gs.len(),
{
    if gs.len() == 0 {
        seq![]
    } else {
        groups_text(app, gs.drop_last()) + if gs.last().diffs@.len() > 0 {
            group_diff_text(app, gs.last().uri@, gs.last().diffs@)
        } else {
            seq![]
        }
    }
}

/// Appends each value on a line of its own.
fn append_value_lines(out: &mut String, vs: &Vec<String>)
    ensures
        final(out)@ == old(out)@ + value_lines(string_views(vs@)),
{
    let ghost sv = string_views(vs@);
    let mut i: usize = 0;
    assert(sv.take(0) =~= Seq::<Seq<char>>::empty());
    while i < vs.len()
        invariant
            i <= vs.len(),
            sv == string_views(vs@),
            out@ == old(out)@ + value_lines(sv.take(i as int)),
        decreases vs.len() - i,
    {
        out.append(vs[i].as_str());
        out.append("\n");
        assert(sv.take(i + 1).drop_last() =~= sv.take(i as int));
        assert(sv[i as int] == vs@[i as int]@);
        assert(out@ =~= old(out)@ + value_lines(sv.take(i + 1)));
        i = i + 1;
    }
    assert(sv.take(vs.len() as int) =~= sv);
}

/// Appends the text of one difference (see `diff_section`).
fn append_diff_section(out: &mut String, d: &ReportDiff)
    ensures
        final(out)@ == old(out)@ + diff_section(*d),
{
    let ghost vs = string_views(d.h3_vs@);
    if str_eq(d.diff_header.as_str(), "body") {
        out.append("\nhttp3 request has specific body:\n");
        if d.h3_vs.len() > 0 {
            out.append(d.h3_vs[0].as_str());
        }
        out.append("\n\n= = = = = = = = = = = = = = = = = = = =\n\n");
        assert(out@ =~= old(out)@ + diff_section(*d));
    } else {
        match d.diff {
            DiffType::DIFFERENT => {
                out.append("\nhttp3 request has different header:\n");
                if d.h3_vs.len() == 0 {
                    out.append("\n\n= = = = = = = = = = = = = = = = = = = =\n\n");
                    assert(out@ =~= old(out)@ + diff_section(*d));
                } else {
                    let s = &d.h3_vs[0];
                    if is_sub(
                        s.as_str().as_bytes(),
                        "\"Android WebView\";v=\"129\", \"Not=A?Brand\";v=\"8\", \"Chromium\";v=\"129\"".as_bytes(),
                    ) {
                        assert(out@ =~= old(out)@ + diff_section(*d));
                    } else {
                        out.append("\nHeader: ");
                        out.append(d.diff_header.as_str());
                        out.append("\nValue in http3:\n");
                        out.append(s.as_str());
                        out.append("\n");
                        out.append("\n\n= = = = = = = = = = = = = = = = = = = =\n\n");
                        assert(out@ =~= old(out)@ + diff_section(*d));
                    }
                }
            },
            DiffType::DISTINCT => {
                out.append("\nhttp3 request has distinct header:\n");
                out.append("\nHttp3 specific Header: ");
                out.append(d.diff_header.as_str());
                out.append("\n");
                out.append("\nCaptured value of this header:\n");
                append_value_lines(out, &d.h3_vs);
                out.append("\n\n= = = = = = = = = = = = = = = = = = = =\n\n");
                assert(out@ =~= old(out)@ + diff_section(*d));
            },
        }
    }
}

/// The report text of the differences of the requests to one URI, as it is
/// written to the report file.
pub fn write_group_diff(app_using: &str, uri_using: &str, diff_vec: &Vec<ReportDiff>) -> (r: String)
    ensures
        r@ == group_diff_text(app_using@, uri_using@, diff_vec@),
{
    let mut out = String::new();
    out.append("\n\nWhile using app: ");
    out.append(app_using);
    out.append("\nUri: ");
    out.append(uri_using);
    out.append("\n");
    let ghost head = out@;
    let mut i: usize = 0;
    assert(diff_vec@.take(0) =~= Seq::<ReportDiff>::empty());
    while i < diff_vec.len()
        invariant
            i <= diff_vec.len(),
            head == "\n\nWhile using app: "@ + app_using@ + "\nUri: "@ + uri_using@ + "\n"@,
            out@ == head + diff_sections(diff_vec@.take(i as int)),
        decreases diff_vec.len() - i,
    {
        append_diff_section(&mut out, &diff_vec[i]);
        assert(diff_vec@.take(i + 1).drop_last() =~= diff_vec@.take(i as int));
        assert(out@ =~= head + diff_sections(diff_vec@.take(i + 1)));
        i = i + 1;
    }
    assert(diff_vec@.take(diff_vec.len() as int) =~= diff_vec@);
    out.append("\n\n+ + + + + + + + + + + + + + + + + + + +\n\n");
    assert(out@ =~= group_diff_text(app_using@, uri_using@, diff_vec@));
    out
}

/// The report text of all groups: that of each group with differences, in
/// order.
pub fn report_text(app_using: &str, groups: &Vec<GroupDiff>) -> (r: String)
    ensures
        r@ == groups_text(app_using@, groups@),
{
    let mut out = String::new();
    let mut i: usize = 0;
    assert(groups@.take(0) =~= Seq::<GroupDiff>::empty());
    while i < groups.len()
        invariant
            i <= groups.len(),
            out@ == groups_text(app_using@, groups@.take(i as int)),
        decreases groups.len() - i,
    {
        let g = &groups[i];
        assert(groups@.take(i + 1).drop_last() =~= groups@.take(i as int));
        if g.diffs.len() > 0 {
            let t = write_group_diff(app_using, g.uri.as_str(), &g.diffs);
            out.append(t.as_str());
        }
        assert(out@ =~= groups_text(app_using@, groups@.take(i + 1)));
        i = i + 1;
    }
    assert(groups@.take(groups.len() as int) =~= groups@);
    out
}

} // verus!
