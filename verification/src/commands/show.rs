//! Showing a game: its definition and where its declared paths lead.

use vstd::prelude::*;
use vstd::string::*;
use crate::games::definition::{GameDefinition, GameDefinitionView};
use crate::games::paths::{
    failed_expansion, option_text, path_error_text, resolution, rewrite_path,
};

verus! {

/// The line that shows where a declared path leads: its resolved form after an
/// arrow, or the reason it does not resolve after a cross.
pub open spec fn resolution_line(path: Seq<char>, home: Option<Seq<char>>) -> Seq<char> {
    match resolution(path, home) {
        Ok(resolved) => "\t\t➙ "@ + resolved,
        Err(kind) => "\t\t× "@ + path_error_text(kind, path, failed_expansion(kind, path, home)),
    }
}

/// The two lines for each declared path, in order: the path, and where it
/// leads.
pub open spec fn path_lines(paths: Seq<Seq<char>>, home: Option<Seq<char>>) -> Seq<Seq<char>>
    decreases paths.len(),
{
    if paths.len() == 0 {
        Seq::<Seq<char>>::empty()
    } else {
        path_lines(paths.drop_last(), home).push("\t"@ + paths.last()).push(
            resolution_line(paths.last(), home),
        )
    }
}

/// The lines that show a game: its name, its platform, and its declared paths
/// each with what it resolves to.
pub open spec fn shown(definition: GameDefinitionView, home: Option<Seq<char>>) -> Seq<Seq<char>> {
    seq!["Name: "@ + definition.name, "Platform: "@ + definition.platform.text()] + (if definition.paths.len() == 0 {
        seq!["Save Paths: None"@]
    } else {
        seq!["Save Paths:"@] + path_lines(definition.paths, home)
    })
}

/// What a list of lines says.
pub open spec fn line_texts(lines: Seq<String>) -> Seq<Seq<char>> {
    Seq::new(lines.len(), |i: int| lines[i]@)
}

/// The lines that show a game.
pub fn show(definition: &GameDefinition, home: Option<&str>) -> (lines: Vec<String>)
    ensures
        line_texts(lines@) == shown(definition@, option_text(home)),
{
    let mut lines: Vec<String> = Vec::new();
    let mut name = String::from_str("Name: ");
    name.append(definition.name.as_str());
    lines.push(name);
    let mut platform = String::from_str("Platform: ");
    platform.append(definition.platform.name());
    lines.push(platform);
    let ghost head = seq!["Name: "@ + definition@.name, "Platform: "@ + definition.platform.text()];
    assert(line_texts(lines@) =~= head);
    if definition.paths.len() == 0 {
        lines.push(String::from_str("Save Paths: None"));
        assert(line_texts(lines@) =~= head + seq!["Save Paths: None"@]);
        return lines;
    }
    lines.push(String::from_str("Save Paths:"));
    let ghost top = head + seq!["Save Paths:"@];
    let ghost paths = definition@.paths;
    let ghost h = option_text(home);
    let mut i: usize = 0;
    assert(paths.subrange(0, 0) =~= Seq::<Seq<char>>::empty());
    assert(line_texts(lines@) =~= top + path_lines(paths.subrange(0, 0), h));
    while i < definition.paths.len()
        invariant
            i <= definition.paths.len(),
            paths == definition@.paths,
            h == option_text(home),
            line_texts(lines@) == top + path_lines(paths.subrange(0, i as int), h),
        decreases definition.paths.len() - i,
    {
        let path = &definition.paths[i].path;
        let ghost next = paths.subrange(0, i + 1);
        assert(next.drop_last() =~= paths.subrange(0, i as int));
        assert(next.last() == path@);
        let ghost before = line_texts(lines@);
        let mut declared = String::from_str("\t");
        declared.append(path.as_str());
        let mut leads = String::new();
        match rewrite_path(path.as_str(), home) {
            Ok(resolved) => {
                leads.append("\t\t➙ ");
                leads.append(resolved.as_str());
                assert(leads@ =~= "\t\t➙ "@ + resolved@);
            },
            Err(e) => {
                leads.append("\t\t× ");
                leads.append(e.message().as_str());
                assert(leads@ =~= "\t\t× "@ + path_error_text(
                    e.kind,
                    path@,
                    failed_expansion(e.kind, path@, h),
                ));
            },
        }
        assert(leads@ == resolution_line(path@, h));
        lines.push(declared);
        lines.push(leads);
        assert(line_texts(lines@) =~= before.push("\t"@ + path@).push(resolution_line(path@, h)));
        i += 1;
    }
    assert(paths.subrange(0, definition.paths.len() as int) =~= paths);
    lines
}

} // verus!
