//! Restructuring of a rendered patch: the flat stream of typed lines is folded
//! into files, each holding hunks, each holding lines.

use vstd::prelude::*;
use crate::text::{diff_line_text, line_text};

verus! {

/// The kind of one rendered patch line.
#[derive(Debug, Clone, Copy, PartialEq, Eq, Structural)]
pub enum DiffLineType {
    Context,
    Addition,
    Deletion,
    /// Both files have no newline at the end.
    ContextEOFNL,
    /// The old file has no newline at the end, the new one has.
    AddEOFNL,
    /// The old file has a newline at the end, the new one has not.
    DeleteEOFNL,
    FileHeader,
    HunkHeader,
    /// "Binary files differ" marker.
    Binary,
}

/// How a file changed between the two trees.
#[derive(Debug, Clone, Copy, PartialEq, Eq, Structural)]
pub enum DeltaKind {
    Unmodified,
    Added,
    Deleted,
    Modified,
    Renamed,
    Copied,
    Ignored,
    Untracked,
    Typechange,
    Unreadable,
    Conflicted,
}

/// One line as the patch renderer hands it out, with the change of the file
/// that it belongs to.
pub struct RawDiffLine {
    pub operation: DiffLineType,
    pub content: Vec<u8>,
    pub old_line_number: Option<u32>,
    pub new_line_number: Option<u32>,
    pub status: DeltaKind,
    pub old_path: Option<String>,
    pub new_path: Option<String>,
}

/// One line of the restructured diff.
pub struct DiffLineData {
    pub content: String,
    /// The new path of the file, on file headers only.
    pub file_path: Option<String>,
    pub operation: DiffLineType,
    pub old_line_number: Option<u32>,
    pub new_line_number: Option<u32>,
}

/// A hunk: its header line and the lines under it.
pub struct DiffHunkItem {
    pub hunk_diff: DiffLineData,
    pub lines: Vec<DiffLineData>,
}

/// A changed file: its header line and its hunks.
pub struct DiffFileItem {
    pub file_diff: DiffLineData,
    pub hunks: Vec<DiffHunkItem>,
}

/// A hunk as a value: header and lines.
pub type HunkModel = (DiffLineData, Seq<DiffLineData>);

/// A file as a value: header and hunks.
pub type FileModel = (DiffLineData, Seq<HunkModel>);

impl View for DiffHunkItem {
    type V = HunkModel;

    open spec fn view(&self) -> HunkModel {
        (self.hunk_diff, self.lines@)
    }
}

impl View for DiffFileItem {
    type V = FileModel;

    open spec fn view(&self) -> FileModel {
        (self.file_diff, hunks_model(self.hunks@))
    }
}

/// The hunks of a file, as values.
pub open spec fn hunks_model(hunks: Seq<DiffHunkItem>) -> Seq<HunkModel> {
    hunks.map_values(|h: DiffHunkItem| h@)
}

/// The files of a folded diff, as values.
pub open spec fn files_model(files: Seq<DiffFileItem>) -> Seq<FileModel> {
    files.map_values(|f: DiffFileItem| f@)
}

/// A path, or the empty text where the renderer gave none.
pub open spec fn path_text(p: Option<String>) -> Seq<char> {
    match p {
        Some(s) => s@,
        None => Seq::empty(),
    }
}

/// The label of a file header, by how the file changed.
pub open spec fn header_label(status: DeltaKind, old: Seq<char>, new: Seq<char>) -> Seq<char> {
    match status {
        DeltaKind::Added => "[Added] "@ + new,
        DeltaKind::Copied => "[Copied] "@ + old + " -> "@ + new,
        DeltaKind::Deleted => "[Deleted] "@ + old,
        DeltaKind::Renamed => "[Renamed] "@ + old + " -> "@ + new,
        DeltaKind::Modified => "[Modified] "@ + new,
        DeltaKind::Ignored => "[Ignored] "@ + new,
        DeltaKind::Conflicted => "[Conflicted] "@ + new,
        _ => new,
    }
}

fn labelled(tag: &str, path: &str) -> (r: String)
    ensures
        r@ == tag@ + path@,
{
    let mut r = String::from_str(tag);
    r.append(path);
    r
}

fn labelled_pair(tag: &str, old: &str, new: &str) -> (r: String)
    ensures
        r@ == tag@ + old@ + " -> "@ + new@,
{
    let mut r = String::from_str(tag);
    r.append(old);
    r.append(" -> ");
    r.append(new);
    r
}

fn path_str(p: &Option<String>) -> (r: &str)
    ensures
        r@ == path_text(*p),
{
    match p {
        Some(s) => s.as_str(),
        None => {
            proof {
                reveal_strlit("");
            }
            ""
        },
    }
}

/// The human-readable label of a file header line.
pub fn file_header_label(status: DeltaKind, old_path: &Option<String>, new_path: &Option<String>) -> (r: String)
    ensures
        r@ == header_label(status, path_text(*old_path), path_text(*new_path)),
{
    let old = path_str(old_path);
    let new = path_str(new_path);
    match status {
        DeltaKind::Added => labelled("[Added] ", new),
        DeltaKind::Copied => labelled_pair("[Copied] ", old, new),
        DeltaKind::Deleted => labelled("[Deleted] ", old),
        DeltaKind::Renamed => labelled_pair("[Renamed] ", old, new),
        DeltaKind::Modified => labelled("[Modified] ", new),
        DeltaKind::Ignored => labelled("[Ignored] ", new),
        DeltaKind::Conflicted => labelled("[Conflicted] ", new),
        _ => String::from_str(new),
    }
}

/// What one rendered line becomes: a file header carries its label and the
/// new path, every other line its trimmed text and no path.
pub open spec fn line_from_raw(raw: RawDiffLine, content: Seq<char>, line: DiffLineData) -> bool {
    &&& line.operation == raw.operation
    &&& line.old_line_number == raw.old_line_number
    &&& line.new_line_number == raw.new_line_number
    &&& if raw.operation == DiffLineType::FileHeader {
        &&& content == header_label(raw.status, path_text(raw.old_path), path_text(raw.new_path))
        &&& line.file_path == raw.new_path
    } else {
        &&& content == line_text(raw.content@)
        &&& line.file_path is None
    }
    &&& line.content@ == content
}

/// Converts one rendered line.
pub fn diff_line_from_raw(raw: RawDiffLine) -> (r: DiffLineData)
    ensures
        line_from_raw(raw, r.content@, r),
{
    let is_header = raw.operation == DiffLineType::FileHeader;
    let content = if is_header {
        file_header_label(raw.status, &raw.old_path, &raw.new_path)
    } else {
        diff_line_text(raw.content.as_slice())
    };
    let file_path = if is_header {
        raw.new_path
    } else {
        None
    };
    DiffLineData {
        content,
        file_path,
        operation: raw.operation,
        old_line_number: raw.old_line_number,
        new_line_number: raw.new_line_number,
    }
}


/// Where the fold stands after a prefix of the stream.
#[derive(Debug, Clone, Copy, PartialEq, Eq, Structural)]
pub enum FoldPhase {
    /// No file header yet.
    NoFile,
    /// Inside a file, before its first hunk header.
    InFile,
    /// Inside a hunk.
    InHunk,
    /// A line came with no container to hold it.
    Broken,
}

/// Lines that belong to a hunk.
pub open spec fn is_hunk_content(op: DiffLineType) -> bool {
    op != DiffLineType::FileHeader && op != DiffLineType::HunkHeader && op != DiffLineType::Binary
}

/// The phase after one more line.
pub open spec fn next_phase(p: FoldPhase, op: DiffLineType) -> FoldPhase {
    if p == FoldPhase::Broken {
        FoldPhase::Broken
    } else {
        match op {
            DiffLineType::FileHeader => FoldPhase::InFile,
            DiffLineType::HunkHeader => if p == FoldPhase::NoFile {
                FoldPhase::Broken
            } else {
                FoldPhase::InHunk
            },
            DiffLineType::Binary => p,
            _ => if p == FoldPhase::InHunk {
                FoldPhase::InHunk
            } else {
                FoldPhase::Broken
            },
        }
    }
}

/// The phase after a whole stream.
pub open spec fn phase_of(s: Seq<DiffLineData>) -> FoldPhase
    decreases s.len(),
{
    if s.len() == 0 {
        FoldPhase::NoFile
    } else {
        next_phase(phase_of(s.drop_last()), s.last().operation)
    }
}

/// Every hunk header follows a file header, and every content line follows a
/// hunk header of its file.
pub open spec fn well_nested(s: Seq<DiffLineData>) -> bool {
    phase_of(s) != FoldPhase::Broken
}

/// The fold's effect of one line on the files built so far.
pub open spec fn fold_step(acc: Seq<FileModel>, l: DiffLineData) -> Seq<FileModel> {
    match l.operation {
        DiffLineType::FileHeader => acc.push((l, Seq::empty())),
        DiffLineType::HunkHeader => if acc.len() == 0 {
            acc
        } else {
            let f = acc.last();
            acc.update(acc.len() - 1, (f.0, f.1.push((l, Seq::empty()))))
        },
        DiffLineType::Binary => acc,
        _ => if acc.len() == 0 || acc.last().1.len() == 0 {
            acc
        } else {
            let f = acc.last();
            let h = f.1.last();
            acc.update(acc.len() - 1, (f.0, f.1.update(f.1.len() - 1, (h.0, h.1.push(l)))))
        },
    }
}

/// The files that a stream of lines folds into.
pub open spec fn fold_lines(s: Seq<DiffLineData>) -> Seq<FileModel>
    decreases s.len(),
{
    if s.len() == 0 {
        Seq::empty()
    } else {
        fold_step(fold_lines(s.drop_last()), s.last())
    }
}

/// Whether a stream is well nested.
pub fn is_well_nested(lines: &Vec<DiffLineData>) -> (r: bool)
    ensures
        r == well_nested(lines@),
{
    let mut phase = FoldPhase::NoFile;
    let mut i: usize = 0;
    while i < lines.len()
        invariant
            i <= lines.len(),
            phase == phase_of(lines@.take(i as int)),
        decreases lines.len() - i,
    {
        assert(lines@.take(i as int + 1).drop_last() == lines@.take(i as int));
        let op = lines[i].operation;
        phase = match phase {
            FoldPhase::Broken => FoldPhase::Broken,
            _ => match op {
                DiffLineType::FileHeader => FoldPhase::InFile,
                DiffLineType::HunkHeader => match phase {
                    FoldPhase::NoFile => FoldPhase::Broken,
                    _ => FoldPhase::InHunk,
                },
                DiffLineType::Binary => phase,
                _ => match phase {
                    FoldPhase::InHunk => FoldPhase::InHunk,
                    _ => FoldPhase::Broken,
                },
            },
        };
        i = i + 1;
    }
    assert(lines@.take(lines.len() as int) == lines@);
    phase != FoldPhase::Broken
}

/// The hunk still open during the fold, as a value.
pub open spec fn open_hunk(header: Option<DiffLineData>, lines: Seq<DiffLineData>) -> Seq<HunkModel> {
    match header {
        Some(h) => seq![(h, lines)],
        None => Seq::empty(),
    }
}

/// The file still open during the fold, as a value.
pub open spec fn open_file(
    header: Option<DiffLineData>,
    hunks: Seq<HunkModel>,
    hunk: Seq<HunkModel>,
) -> Seq<FileModel> {
    match header {
        Some(f) => seq![(f, hunks + hunk)],
        None => Seq::empty(),
    }
}

proof fn lemma_prefix_not_broken(s: Seq<DiffLineData>, i: int)
    requires
        well_nested(s),
        0 <= i <= s.len(),
    ensures
        phase_of(s.take(i)) != FoldPhase::Broken,
    decreases s.len() - i,
{
    if i < s.len() {
        lemma_prefix_not_broken(s, i + 1);
        assert(s.take(i + 1).drop_last() == s.take(i));
    } else {
        assert(s.take(i) == s);
    }
}

proof fn lemma_map_push(hunks: Seq<DiffHunkItem>, h: DiffHunkItem)
    ensures
        hunks_model(hunks.push(h)) == hunks_model(hunks).push(h@),
{
    assert(hunks_model(hunks.push(h)) =~= hunks_model(hunks).push(h@));
}

proof fn lemma_files_push(files: Seq<DiffFileItem>, f: DiffFileItem)
    ensures
        files_model(files.push(f)) == files_model(files).push(f@),
{
    assert(files_model(files.push(f)) =~= files_model(files).push(f@));
}

/// Folds a well nested stream of lines into files, hunks and lines. Binary
/// markers are dropped.
pub fn fold_diff_lines(lines: Vec<DiffLineData>) -> (r: Vec<DiffFileItem>)
    requires
        well_nested(lines@),
    ensures
        files_model(r@) == fold_lines(lines@),
{
    let ghost all = lines@;
    let mut files: Vec<DiffFileItem> = Vec::new();
    let mut file_header: Option<DiffLineData> = None;
    let mut hunks: Vec<DiffHunkItem> = Vec::new();
    let mut hunk_header: Option<DiffLineData> = None;
    let mut hunk_lines: Vec<DiffLineData> = Vec::new();
    proof {
        assert(files_model(files@) =~= Seq::<FileModel>::empty());
        assert(all.take(0) =~= Seq::<DiffLineData>::empty());
    }
    for line in it: lines.into_iter()
        invariant
            it.seq() == all,
            well_nested(all),
            files_model(files@) + open_file(file_header, hunks_model(hunks@), open_hunk(hunk_header, hunk_lines@))
                == fold_lines(all.take(it.index())),
            phase_of(all.take(it.index())) == FoldPhase::NoFile ==> file_header is None,
            phase_of(all.take(it.index())) == FoldPhase::InFile ==> (file_header is Some
                && hunk_header is None),
            phase_of(all.take(it.index())) == FoldPhase::InHunk ==> (file_header is Some
                && hunk_header is Some),
    {
        let ghost i = it.index();
        let ghost l = line;
        let ghost before = files_model(files@) + open_file(file_header, hunks_model(hunks@), open_hunk(hunk_header, hunk_lines@));
        proof {
            assert(l == all[i]);
            assert(all.take(i + 1).drop_last() =~= all.take(i));
            assert(all.take(i + 1).last() == l);
            lemma_prefix_not_broken(all, i);
            lemma_prefix_not_broken(all, i + 1);
        }
        let ghost fm0 = files_model(files@);
        let ghost hm0 = hunks_model(hunks@);
        let ghost oh0 = open_hunk(hunk_header, hunk_lines@);
        let ghost fh0 = file_header;
        let ghost lines0 = hunk_lines@;
        match line.operation {
            DiffLineType::FileHeader => {
                if hunk_header.is_some() {
                    let hh = hunk_header.unwrap();
                    let item = DiffHunkItem { hunk_diff: hh, lines: hunk_lines };
                    proof { lemma_map_push(hunks@, item); }
                    hunks.push(item);
                    hunk_lines = Vec::new();
                    hunk_header = None;
                    assert(hunks_model(hunks@) =~= hm0 + oh0);
                } else {
                    assert(hunks_model(hunks@) =~= hm0 + oh0);
                }
                if file_header.is_some() {
                    let fh = file_header.unwrap();
                    let item = DiffFileItem { file_diff: fh, hunks: hunks };
                    proof { lemma_files_push(files@, item); }
                    files.push(item);
                    assert(files_model(files@) =~= fm0 + open_file(fh0, hm0, oh0)) by {
                        assert(open_file(fh0, hm0, oh0) == seq![(fh, hm0 + oh0)]);
                    }
                } else {
                    assert(files_model(files@) =~= fm0 + open_file(fh0, hm0, oh0));
                }
                file_header = Some(line);
                hunks = Vec::new();
                proof {
                    assert(hunks_model(hunks@) =~= Seq::<HunkModel>::empty());
                    assert(open_hunk(hunk_header, hunk_lines@) =~= Seq::<HunkModel>::empty());
                    assert(open_file(file_header, hunks_model(hunks@), open_hunk(hunk_header, hunk_lines@))
                        =~= seq![(l, Seq::<HunkModel>::empty())]);
                    assert(files_model(files@) + open_file(file_header, hunks_model(hunks@), open_hunk(hunk_header, hunk_lines@))
                        =~= before.push((l, Seq::empty())));
                }
            },
            DiffLineType::HunkHeader => {
                if hunk_header.is_some() {
                    let hh = hunk_header.unwrap();
                    let item = DiffHunkItem { hunk_diff: hh, lines: hunk_lines };
                    proof { lemma_map_push(hunks@, item); }
                    hunks.push(item);
                    assert(hunks_model(hunks@) =~= hm0 + oh0);
                } else {
                    assert(hunks_model(hunks@) =~= hm0 + oh0);
                }
                hunk_header = Some(line);
                hunk_lines = Vec::new();
                proof {
                    let fh = fh0->Some_0;
                    assert(before == fm0 + seq![(fh, hm0 + oh0)]);
                    let f = before.last();
                    assert(f == (fh, hm0 + oh0));
                    assert(open_hunk(hunk_header, hunk_lines@) =~= seq![(l, Seq::<DiffLineData>::empty())]);
                    assert(hunks_model(hunks@) + open_hunk(hunk_header, hunk_lines@)
                        =~= (hm0 + oh0).push((l, Seq::empty())));
                    assert(open_file(file_header, hunks_model(hunks@), open_hunk(hunk_header, hunk_lines@))
                        =~= seq![(fh, (hm0 + oh0).push((l, Seq::empty())))]);
                    assert(files_model(files@) + open_file(file_header, hunks_model(hunks@), open_hunk(hunk_header, hunk_lines@))
                        =~= before.update(before.len() - 1, (f.0, f.1.push((l, Seq::empty())))));
                }
            },
            DiffLineType::Binary => {
            },
            _ => {
                hunk_lines.push(line);
                proof {
                    let fh = fh0->Some_0;
                    let hh = hunk_header->Some_0;
                    assert(oh0 == seq![(hh, lines0)]);
                    assert(before == fm0 + seq![(fh, hm0 + oh0)]);
                    let f = before.last();
                    assert(f == (fh, hm0 + oh0));
                    let h = f.1.last();
                    assert(h == (hh, lines0));
                    assert(f.1.update(f.1.len() - 1, (h.0, h.1.push(l))) =~= hm0 + seq![(hh, hunk_lines@)]);
                    assert(open_file(file_header, hunks_model(hunks@), open_hunk(hunk_header, hunk_lines@))
                        =~= seq![(fh, hm0 + seq![(hh, hunk_lines@)])]);
                    assert(files_model(files@) + open_file(file_header, hunks_model(hunks@), open_hunk(hunk_header, hunk_lines@))
                        =~= before.update(before.len() - 1, (f.0, f.1.update(f.1.len() - 1, (h.0, h.1.push(l))))));
                }
            },
        }
    }
    let ghost fm0 = files_model(files@);
    let ghost hm0 = hunks_model(hunks@);
    let ghost oh0 = open_hunk(hunk_header, hunk_lines@);
    let ghost fh0 = file_header;
    if hunk_header.is_some() {
        let hh = hunk_header.unwrap();
        let item = DiffHunkItem { hunk_diff: hh, lines: hunk_lines };
        proof { lemma_map_push(hunks@, item); }
        hunks.push(item);
        assert(hunks_model(hunks@) =~= hm0 + oh0);
    } else {
        assert(hunks_model(hunks@) =~= hm0 + oh0);
    }
    if file_header.is_some() {
        let fh = file_header.unwrap();
        let item = DiffFileItem { file_diff: fh, hunks: hunks };
        proof { lemma_files_push(files@, item); }
        files.push(item);
        assert(files_model(files@) =~= fm0 + open_file(fh0, hm0, oh0)) by {
            assert(open_file(fh0, hm0, oh0) == seq![(fh, hm0 + oh0)]);
        }
    } else {
        assert(files_model(files@) =~= fm0 + open_file(fh0, hm0, oh0));
    }
    proof {
        assert(all.take(all.len() as int) =~= all);
    }
    files
}

/// Errors of the diff restructuring.
#[derive(Debug, Clone, Copy, PartialEq, Eq, Structural)]
pub enum DiffError {
    /// A hunk header came before any file header, or a content line before
    /// any hunk header of its file.
    MisplacedLine,
}

/// `lines` are the rendered lines `raw`, converted one by one.
pub open spec fn converted_lines(raw: Seq<RawDiffLine>, lines: Seq<DiffLineData>) -> bool {
    &&& lines.len() == raw.len()
    &&& forall|i: int| 0 <= i < raw.len() ==> line_from_raw(#[trigger] raw[i], lines[i].content@, lines[i])
}

/// Converts the rendered lines of a patch and folds them into files, hunks
/// and lines.
pub fn restructure_diff(raw: Vec<RawDiffLine>) -> (r: Result<Vec<DiffFileItem>, DiffError>)
    ensures
        exists|lines: Seq<DiffLineData>|
            {
                &&& converted_lines(raw@, lines)
                &&& well_nested(lines) ==> (r matches Ok(files) && files_model(files@) == fold_lines(lines))
                &&& !well_nested(lines) ==> r == Err::<Vec<DiffFileItem>, DiffError>(DiffError::MisplacedLine)
            },
{
    let ghost all = raw@;
    let mut lines: Vec<DiffLineData> = Vec::new();
    for item in it: raw.into_iter()
        invariant
            it.seq() == all,
            lines@.len() == it.index(),
            forall|i: int| 0 <= i < it.index() ==> line_from_raw(#[trigger] all[i], lines@[i].content@, lines@[i]),
    {
        let ghost i = it.index();
        assert(item == all[i]);
        let line = diff_line_from_raw(item);
        lines.push(line);
    }
    assert(converted_lines(all, lines@));
    if is_well_nested(&lines) {
        let ghost lv = lines@;
        let files = fold_diff_lines(lines);
        assert(converted_lines(all, lv));
        Ok(files)
    } else {
        Err(DiffError::MisplacedLine)
    }
}

/// The number of lines with the given kind.
pub open spec fn count_kind(s: Seq<DiffLineData>, op: DiffLineType) -> nat
    decreases s.len(),
{
    if s.len() == 0 {
        0
    } else {
        count_kind(s.drop_last(), op) + if s.last().operation == op { 1nat } else { 0nat }
    }
}

/// The number of content lines over a file's hunks.
pub open spec fn hunk_line_total(hunks: Seq<HunkModel>) -> nat
    decreases hunks.len(),
{
    if hunks.len() == 0 {
        0
    } else {
        hunk_line_total(hunks.drop_last()) + hunks.last().1.len()
    }
}

/// The number of content lines over all files.
pub open spec fn file_line_total(files: Seq<FileModel>) -> nat
    decreases files.len(),
{
    if files.len() == 0 {
        0
    } else {
        file_line_total(files.drop_last()) + hunk_line_total(files.last().1)
    }
}

/// The number of hunks over all files.
pub open spec fn hunk_total(files: Seq<FileModel>) -> nat
    decreases files.len(),
{
    if files.len() == 0 {
        0
    } else {
        hunk_total(files.drop_last()) + files.last().1.len()
    }
}

proof fn lemma_phase_shape(s: Seq<DiffLineData>)
    requires
        well_nested(s),
    ensures
        phase_of(s) == FoldPhase::NoFile ==> fold_lines(s).len() == 0,
        phase_of(s) != FoldPhase::NoFile ==> fold_lines(s).len() > 0,
        phase_of(s) == FoldPhase::InHunk ==> fold_lines(s).last().1.len() > 0,
    decreases s.len(),
{
    if s.len() > 0 {
        lemma_prefix_not_broken(s, s.len() - 1);
        assert(s.take(s.len() - 1) == s.drop_last());
        lemma_phase_shape(s.drop_last());
    }
}

/// Folding loses no line: the content lines in all hunks, the file headers,
/// the hunk headers and the dropped binary markers together are as many as
/// the lines of the stream.
pub proof fn lemma_fold_accounts_for_every_line(s: Seq<DiffLineData>)
    requires
        well_nested(s),
    ensures
        file_line_total(fold_lines(s)) + fold_lines(s).len() + hunk_total(fold_lines(s))
            + count_kind(s, DiffLineType::Binary) == s.len(),
    decreases s.len(),
{
    if s.len() > 0 {
        let p = s.drop_last();
        let l = s.last();
        lemma_prefix_not_broken(s, s.len() - 1);
        assert(s.take(s.len() - 1) == p);
        lemma_fold_accounts_for_every_line(p);
        lemma_phase_shape(p);
        let acc = fold_lines(p);
        let next = fold_lines(s);
        match l.operation {
            DiffLineType::FileHeader => {
                assert(next.drop_last() == acc);
                assert(hunk_line_total(Seq::<HunkModel>::empty()) == 0);
            },
            DiffLineType::HunkHeader => {
                let f = acc.last();
                let nf = (f.0, f.1.push((l, Seq::empty())));
                assert(next.drop_last() == acc.drop_last());
                assert(nf.1.drop_last() == f.1);
            },
            DiffLineType::Binary => {
            },
            _ => {
                let f = acc.last();
                let h = f.1.last();
                let nh = f.1.update(f.1.len() - 1, (h.0, h.1.push(l)));
                assert(next.drop_last() == acc.drop_last());
                assert(nh.drop_last() == f.1.drop_last());
            },
        }
    }
}

} // verus!
