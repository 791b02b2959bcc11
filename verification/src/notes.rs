//! Generated meeting notes: the sections the service returns and the
//! Markdown document written from them.
use vstd::prelude::*;

use crate::error::{AppError, AppResult};
use crate::session::{new_session_id, AiSuggestions};
use crate::text::{
    alphanumeric, byte_len, chars_of, concat2, concat3, is_alphanumeric, is_blank, owned, string_of,
    trim, utf8_len,
};

verus! {

/// The notes the service generated, with its metadata suggestions and
/// whether any suggestion was dropped for want of evidence.
#[derive(Clone, Debug)]
pub struct EnrichedSections {
    pub omitted_suggestions: bool,
    pub summary: Vec<String>,
    pub key_points: Vec<String>,
    pub decisions: Vec<String>,
    pub action_items: Vec<String>,
    pub suggestions: AiSuggestions,
}

/// `- item` lines joined by line breaks.
pub open spec fn bullets(items: Seq<String>) -> Seq<char>
    decreases items.len(),
{
    if items.len() == 0 {
        Seq::empty()
    } else if items.len() == 1 {
        "- "@ + items[0]@
    } else {
        bullets(items.drop_last()) + "\n- "@ + items.last()@
    }
}

pub open spec fn section_md(heading: Seq<char>, items: Seq<String>) -> Seq<char> {
    "## "@ + heading + "\n\n"@ + bullets(items)
}

/// The section as a one-element list, or nothing when it has no items.
pub open spec fn present(heading: Seq<char>, items: Seq<String>) -> Seq<Seq<char>> {
    if items.len() == 0 {
        Seq::empty()
    } else {
        seq![section_md(heading, items)]
    }
}

/// Parts separated by blank lines.
pub open spec fn joined_parts(parts: Seq<Seq<char>>) -> Seq<char>
    decreases parts.len(),
{
    if parts.len() == 0 {
        Seq::empty()
    } else if parts.len() == 1 {
        parts[0]
    } else {
        joined_parts(parts.drop_last()) + "\n\n"@ + parts.last()
    }
}

pub open spec fn markdown_parts(s: EnrichedSections) -> Seq<Seq<char>> {
    present("Summary"@, s.summary@) + present("Key Points"@, s.key_points@) + present(
        "Decisions"@,
        s.decisions@,
    ) + present("Action Items"@, s.action_items@)
}

/// The notes document: each non-empty section under its heading as a
/// bullet list, sections separated by blank lines, ending with a line
/// break; empty when every section is empty.
pub open spec fn markdown_spec(s: EnrichedSections) -> Seq<char> {
    let parts = markdown_parts(s);
    if parts.len() == 0 {
        Seq::empty()
    } else {
        joined_parts(parts) + "\n"@
    }
}

fn bullet_list(items: &Vec<String>) -> (r: String)
    ensures
        r@ == bullets(items@),
{
    let mut r = String::new();
    let n: usize = items.len();
    let mut i: usize = 0;
    while i < n
        invariant
            n == items@.len(),
            i <= n,
            r@ == bullets(items@.take(i as int)),
        decreases n - i,
    {
        proof {
            assert(items@.take(i + 1).drop_last() =~= items@.take(i as int));
        }
        if i == 0 {
            r = concat2("- ", items[i].as_str());
            proof {
                assert(items@.take(1) =~= seq![items@[0]]);
            }
        } else {
            r.append("\n- ");
            r.append(items[i].as_str());
        }
        i = i + 1;
    }
    proof {
        assert(items@.take(n as int) =~= items@);
    }
    r
}

fn add_section(parts: &mut Vec<String>, heading: &str, items: &Vec<String>)
    ensures
        final(parts)@.map_values(|p: String| p@) == old(parts)@.map_values(|p: String| p@) + present(
            heading@,
            items@,
        ),
{
    if items.len() == 0 {
        proof {
            assert(old(parts)@.map_values(|p: String| p@) + present(heading@, items@)
                =~= old(parts)@.map_values(|p: String| p@));
        }
        return ;
    }
    let head = concat3("## ", heading, "\n\n");
    let list = bullet_list(items);
    let part = concat2(head.as_str(), list.as_str());
    let ghost before = parts@.map_values(|p: String| p@);
    parts.push(part);
    proof {
        assert(parts@.map_values(|p: String| p@) =~= before.push(section_md(heading@, items@)));
    }
}

/// Writes the generated notes as Markdown.
pub fn sections_to_markdown(sections: EnrichedSections) -> (r: String)
    ensures
        r@ == markdown_spec(sections),
{
    let mut parts: Vec<String> = Vec::new();
    add_section(&mut parts, "Summary", &sections.summary);
    add_section(&mut parts, "Key Points", &sections.key_points);
    add_section(&mut parts, "Decisions", &sections.decisions);
    add_section(&mut parts, "Action Items", &sections.action_items);
    let ghost pv = parts@.map_values(|p: String| p@);
    proof {
        assert(pv =~= Seq::<Seq<char>>::empty() + present("Summary"@, sections.summary@) + present(
            "Key Points"@,
            sections.key_points@,
        ) + present("Decisions"@, sections.decisions@) + present(
            "Action Items"@,
            sections.action_items@,
        ));
        assert(pv =~= markdown_parts(sections));
    }
    let n: usize = parts.len();
    if n == 0 {
        return String::new();
    }
    let mut r = String::new();
    let mut i: usize = 0;
    while i < n
        invariant
            n == parts@.len(),
            pv == parts@.map_values(|p: String| p@),
            i <= n,
            r@ == joined_parts(pv.take(i as int)),
        decreases n - i,
    {
        proof {
            assert(pv.take(i + 1).drop_last() =~= pv.take(i as int));
            assert(pv[i as int] == parts@[i as int]@);
        }
        if i == 0 {
            r = owned(parts[i].as_str());
            proof {
                assert(pv.take(1) =~= seq![pv[0]]);
            }
        } else {
            r.append("\n\n");
            r.append(parts[i].as_str());
        }
        i = i + 1;
    }
    proof {
        assert(pv.take(n as int) =~= pv);
    }
    r.append("\n");
    r
}

/// The largest document that may be exported, in UTF-8 bytes: 16 MiB.
pub const EXPORT_LIMIT: usize = 16 * 1024 * 1024;

/// An export must hold text and fit the limit.
pub fn validate_export(markdown: &str) -> (r: AppResult<()>)
    ensures
        r is Ok <==> trim(markdown@).len() != 0 && byte_len(markdown@) <= EXPORT_LIMIT,
        r matches Err(e) ==> e.code@ == "invalid_export"@ && e.message@
            == "Export must contain text and be no larger than 16 MiB. Your notes were kept."@,
{
    if is_blank(markdown) || utf8_len(markdown) > EXPORT_LIMIT {
        return Err(
            AppError::new(
                "invalid_export",
                "Export must contain text and be no larger than 16 MiB. Your notes were kept.",
            ),
        );
    }
    Ok(())
}

/// A character kept in an export's file name: letters, digits and dashes;
/// anything else becomes an underscore.
pub open spec fn name_char(c: char) -> char {
    if alphanumeric(c) || c == '-' {
        c
    } else {
        '_'
    }
}

/// The file name stem of an export: the title's first 50 characters made
/// safe, or `meeting` when the title is empty.
pub open spec fn export_stem_spec(title: Seq<char>) -> Seq<char> {
    let cut = if title.len() <= 50 {
        title
    } else {
        title.take(50)
    };
    if cut.len() == 0 {
        "meeting"@
    } else {
        cut.map_values(|c: char| name_char(c))
    }
}

pub fn export_stem(title: &str) -> (r: String)
    ensures
        r@ == export_stem_spec(title@),
{
    let v = chars_of(title);
    let n: usize = if v.len() <= 50 {
        v.len()
    } else {
        50
    };
    if n == 0 {
        return owned("meeting");
    }
    let mut out: Vec<char> = Vec::new();
    let mut i: usize = 0;
    while i < n
        invariant
            n <= v@.len(),
            n <= 50,
            i <= n,
            out@ == v@.take(i as int).map_values(|c: char| name_char(c)),
        decreases n - i,
    {
        let c = v[i];
        let keep = is_alphanumeric(c) || c == '-';
        out.push(
            if keep {
                c
            } else {
                '_'
            },
        );
        proof {
            assert(v@.take(i + 1).map_values(|c: char| name_char(c)) =~= v@.take(i as int).map_values(
                |c: char| name_char(c),
            ).push(name_char(c)));
        }
        i = i + 1;
    }
    proof {
        if v@.len() <= 50 {
            assert(v@.take(n as int) =~= v@);
        }
    }
    string_of(&out)
}

/// The export's file name: its stem, a random identifier, and `.md`; the
/// identifier keeps two exports of one meeting apart.
pub fn export_file_name(title: &str) -> (r: String)
    ensures
        exists|id: Seq<char>| id.len() == 36 && r@ == export_stem_spec(title@) + "-"@ + id + ".md"@,
{
    let stem = export_stem(title);
    let id = new_session_id();
    let name = concat3(stem.as_str(), "-", id.as_str());
    concat2(name.as_str(), ".md")
}

} // verus!
