//! On-disk bootloader-spec text entries: line-oriented `key value` records
//! describing a kernel to boot. A record without a `linux` line is
//! malformed and contributes nothing.
use crate::ascii::starts_with;
use crate::ascii::str_starts_with;
use crate::boot::opt_str_view;
use crate::boot::KexecData;
use crate::boot::KexecDataView;
use vstd::prelude::*;
use vstd::string::*;

verus! {

/// One parsed text-file boot entry.
pub struct FreedesktopBootEntry {
    pub title: Option<String>,
    pub version: Option<String>,
    pub machine_id: Option<String>,
    pub linux: String,
    pub initrd: Option<String>,
    pub options: Option<String>,
    pub devicetree: Option<String>,
}

/// Mathematical image of a text-file boot entry.
pub struct TextEntryView {
    pub title: Option<Seq<char>>,
    pub version: Option<Seq<char>>,
    pub machine_id: Option<Seq<char>>,
    pub linux: Seq<char>,
    pub initrd: Option<Seq<char>>,
    pub options: Option<Seq<char>>,
    pub devicetree: Option<Seq<char>>,
}

impl View for FreedesktopBootEntry {
    type V = TextEntryView;

    open spec fn view(&self) -> TextEntryView {
        TextEntryView {
            title: opt_str_view(self.title),
            version: opt_str_view(self.version),
            machine_id: opt_str_view(self.machine_id),
            linux: self.linux@,
            initrd: opt_str_view(self.initrd),
            options: opt_str_view(self.options),
            devicetree: opt_str_view(self.devicetree),
        }
    }
}

/// The view of an optional parsed entry.
pub open spec fn opt_entry_view(o: Option<FreedesktopBootEntry>) -> Option<TextEntryView> {
    match o {
        Some(e) => Some(e@),
        None => None,
    }
}

/// A comment line, skipped wholesale.
pub open spec fn is_comment(l: Seq<char>) -> bool {
    l.len() > 0 && l[0] == '#'
}

/// What a line contributes to the given key: the rest of the line when the
/// line starts with the key (its trailing space included) and is no
/// comment.
pub open spec fn key_value(l: Seq<char>, key: Seq<char>) -> Option<Seq<char>> {
    if !is_comment(l) && starts_with(l, key) {
        Some(l.skip(key.len() as int))
    } else {
        None
    }
}

/// The value the key ends up with after all lines are read: the last
/// contributing line wins.
pub open spec fn last_value(lines: Seq<Seq<char>>, key: Seq<char>) -> Option<Seq<char>>
    decreases lines.len(),
{
    if lines.len() == 0 {
        None
    } else {
        match key_value(lines.last(), key) {
            Some(v) => Some(v),
            None => last_value(lines.drop_last(), key),
        }
    }
}

/// The views of the lines of one file.
pub open spec fn line_views(ls: Seq<String>) -> Seq<Seq<char>> {
    ls.map_values(|l: String| l@)
}

/// An empty value counts as no value: a display name must never be empty,
/// so a blank `title` is ignored and a blank `linux` leaves the record
/// without its kernel image.
pub open spec fn nonempty_value(o: Option<Seq<char>>) -> Option<Seq<char>> {
    match o {
        Some(v) => if v.len() > 0 {
            Some(v)
        } else {
            None
        },
        None => None,
    }
}

/// What parsing one record yields: nothing without a (non-empty) `linux`
/// line, else an entry holding each key's last value, with a blank title
/// ignored.
pub open spec fn spec_from_lines(lines: Seq<Seq<char>>) -> Option<TextEntryView> {
    match nonempty_value(last_value(lines, ("linux ")@)) {
        None => None,
        Some(lin) => Some(
            TextEntryView {
                title: nonempty_value(last_value(lines, ("title ")@)),
                version: last_value(lines, ("version ")@),
                machine_id: last_value(lines, ("machine-id ")@),
                linux: lin,
                initrd: last_value(lines, ("initrd ")@),
                options: last_value(lines, ("options ")@),
                devicetree: last_value(lines, ("devicetree ")@),
            },
        ),
    }
}

/// Every parsed record has a non-empty display name: the title only stands
/// when it has text, and the kernel-path fallback is never empty.
pub proof fn lemma_parsed_name_nonempty(lines: Seq<Seq<char>>)
    ensures
        spec_from_lines(lines) matches Some(v) ==> display_name_of(v).len() > 0,
{
}

/// Strips a key prefix from a non-comment line.
fn strip_key<'a>(line: &'a str, key: &str) -> (r: Option<&'a str>)
    ensures
        r is Some <==> starts_with(line@, key@),
        r matches Some(v) ==> v@ == line@.skip(key@.len() as int),
{
    if str_starts_with(line, key) {
        let v = line.substring_char(key.unicode_len(), line.unicode_len());
        proof {
            assert(v@ =~= line@.skip(key@.len() as int));
        }
        Some(v)
    } else {
        None
    }
}

impl FreedesktopBootEntry {
    /// Parses the lines of one record. Comment lines are skipped; each
    /// recognised `key value` line sets its field, later lines overriding
    /// earlier ones; a record whose kernel image stays unnamed (or named
    /// empty) is dropped, and a blank title is ignored, so the display name
    /// of every parsed record is non-empty.
    pub fn from_lines(lines: &Vec<String>) -> (r: Option<FreedesktopBootEntry>)
        ensures
            opt_entry_view(r) == spec_from_lines(line_views(lines@)),
            r matches Some(e) ==> display_name_of(e@).len() > 0,
    {
        let ghost lv = line_views(lines@);
        let mut title: Option<String> = None;
        let mut version: Option<String> = None;
        let mut machine_id: Option<String> = None;
        let mut linux: Option<String> = None;
        let mut initrd: Option<String> = None;
        let mut options: Option<String> = None;
        let mut devicetree: Option<String> = None;
        let n = lines.len();
        let mut i: usize = 0;
        proof {
            assert(lv.take(0) =~= Seq::<Seq<char>>::empty());
        }
        while i < n
            invariant
                i <= n,
                n == lines@.len(),
                lv == line_views(lines@),
                opt_str_view(title) == last_value(lv.take(i as int), ("title ")@),
                opt_str_view(version) == last_value(lv.take(i as int), ("version ")@),
                opt_str_view(machine_id) == last_value(lv.take(i as int), ("machine-id ")@),
                opt_str_view(linux) == last_value(lv.take(i as int), ("linux ")@),
                opt_str_view(initrd) == last_value(lv.take(i as int), ("initrd ")@),
                opt_str_view(options) == last_value(lv.take(i as int), ("options ")@),
                opt_str_view(devicetree) == last_value(lv.take(i as int), ("devicetree ")@),
            decreases n - i,
        {
            let line = lines[i].as_str();
            proof {
                assert(lv.take(i + 1 as int).last() == lv[i as int]);
                assert(lv.take(i + 1 as int).drop_last() =~= lv.take(i as int));
                assert(lv[i as int] == line@);
            }
            let comment = line.unicode_len() > 0 && line.get_char(0) == '#';
            if !comment {
                if let Some(v) = strip_key(line, "title ") {
                    title = Some(v.to_owned());
                }
                if let Some(v) = strip_key(line, "version ") {
                    version = Some(v.to_owned());
                }
                if let Some(v) = strip_key(line, "machine-id ") {
                    machine_id = Some(v.to_owned());
                }
                if let Some(v) = strip_key(line, "linux ") {
                    linux = Some(v.to_owned());
                }
                if let Some(v) = strip_key(line, "initrd ") {
                    initrd = Some(v.to_owned());
                }
                if let Some(v) = strip_key(line, "options ") {
                    options = Some(v.to_owned());
                }
                if let Some(v) = strip_key(line, "devicetree ") {
                    devicetree = Some(v.to_owned());
                }
            }
            i = i + 1;
        }
        proof {
            assert(lv.take(n as int) =~= lv);
            lemma_parsed_name_nonempty(lv);
        }
        let title = match title {
            Some(t) => if t.as_str().is_empty() {
                None
            } else {
                Some(t)
            },
            None => None,
        };
        match linux {
            None => None,
            Some(lin) => {
                if lin.as_str().is_empty() {
                    None
                } else {
                    Some(
                        FreedesktopBootEntry {
                            title,
                            version,
                            machine_id,
                            linux: lin,
                            initrd,
                            options,
                            devicetree,
                        },
                    )
                }
            },
        }
    }

    /// The display name: the title when one was given, else the kernel
    /// image path.
    pub fn user_readable_name(&self) -> (r: &str)
        ensures
            r@ == display_name_of(self@),
    {
        match &self.title {
            Some(t) => t.as_str(),
            None => self.linux.as_str(),
        }
    }

    /// Text-file entries always show at the root menu.
    pub fn is_hidden(&self) -> (r: bool)
        ensures
            r == false,
    {
        false
    }

    /// The launch parameters booting this entry hands to the kernel-load
    /// step: paths are relative to the boot partition's mount point.
    pub fn kexec_data(&self) -> (r: KexecData)
        ensures
            r@ == kexec_data_of(self@),
    {
        let kernel = String::from_str("/boot/").concat(self.linux.as_str());
        let initrd: Option<String> = match &self.initrd {
            Some(p) => Some(String::from_str("/boot/").concat(p.as_str())),
            None => None,
        };
        let cmdline: Option<String> = match &self.options {
            Some(o) => Some(o.clone()),
            None => None,
        };
        let dt: Option<String> = match &self.devicetree {
            Some(d) => Some(d.clone()),
            None => None,
        };
        KexecData { kernel, cmdline, initrd, dt }
    }
}

/// The display name of a text entry.
pub open spec fn display_name_of(v: TextEntryView) -> Seq<char> {
    match v.title {
        Some(t) => t,
        None => v.linux,
    }
}

/// The launch parameters of a text entry: kernel and initial RAM
/// filesystem paths live under `/boot/`, the options line is the kernel
/// command line.
pub open spec fn kexec_data_of(v: TextEntryView) -> KexecDataView {
    KexecDataView {
        kernel: ("/boot/")@ + v.linux,
        cmdline: v.options,
        initrd: match v.initrd {
            Some(p) => Some(("/boot/")@ + p),
            None => None,
        },
        dt: v.devicetree,
    }
}

/// The records a set of entry files yields, in order: well-formed files
/// one entry each, malformed files nothing.
pub open spec fn collect_spec(fs: Seq<Seq<Seq<char>>>) -> Seq<TextEntryView>
    decreases fs.len(),
{
    if fs.len() == 0 {
        Seq::empty()
    } else {
        (match spec_from_lines(fs[0]) {
            Some(e) => seq![e],
            None => Seq::empty(),
        }) + collect_spec(fs.drop_first())
    }
}

/// The views of a set of files, each a vector of lines.
pub open spec fn file_views(fs: Seq<Vec<String>>) -> Seq<Seq<Seq<char>>> {
    fs.map_values(|f: Vec<String>| line_views(f@))
}

/// Every collected record carries a non-empty display name.
pub proof fn lemma_collect_names_nonempty(fs: Seq<Seq<Seq<char>>>)
    ensures
        forall|i: int|
            0 <= i < collect_spec(fs).len() ==> display_name_of(
                #[trigger] collect_spec(fs)[i],
            ).len() > 0,
    decreases fs.len(),
{
    if fs.len() > 0 {
        lemma_parsed_name_nonempty(fs[0]);
        lemma_collect_names_nonempty(fs.drop_first());
        let rest = collect_spec(fs.drop_first());
        assert(forall|i: int|
            collect_spec(fs).len() - rest.len() <= i < collect_spec(fs).len()
                ==> #[trigger] collect_spec(fs)[i] == rest[i - (collect_spec(fs).len()
                - rest.len())]);
    }
}

/// The views of a sequence of parsed entries.
pub open spec fn text_entry_views(es: Seq<FreedesktopBootEntry>) -> Seq<TextEntryView> {
    es.map_values(|e: FreedesktopBootEntry| e@)
}

/// Parses each file's lines into an entry, dropping malformed files: the
/// compute half of enumerating `/boot/loader/entries/`.
pub fn collect_entries(files: &Vec<Vec<String>>) -> (r: Vec<FreedesktopBootEntry>)
    ensures
        text_entry_views(r@) == collect_spec(file_views(files@)),
        forall|i: int|
            0 <= i < r@.len() ==> display_name_of(#[trigger] text_entry_views(r@)[i]).len() > 0,
{
    let n = files.len();
    let mut out: Vec<FreedesktopBootEntry> = Vec::new();
    let mut i: usize = 0;
    proof {
        assert(file_views(files@).skip(0) =~= file_views(files@));
        assert(text_entry_views(out@) + collect_spec(file_views(files@)) =~= collect_spec(
            file_views(files@),
        ));
    }
    while i < n
        invariant
            i <= n,
            n == files@.len(),
            collect_spec(file_views(files@)) == text_entry_views(out@) + collect_spec(
                file_views(files@).skip(i as int),
            ),
        decreases n - i,
    {
        proof {
            assert(file_views(files@).skip(i as int)[0] == file_views(files@)[i as int]);
            assert(file_views(files@).skip(i as int).drop_first() =~= file_views(files@).skip(
                i as int + 1,
            ));
        }
        match FreedesktopBootEntry::from_lines(&files[i]) {
            Some(e) => {
                proof {
                    assert(text_entry_views(out@.push(e)) =~= text_entry_views(out@) + seq![e@]);
                    assert(text_entry_views(out@) + (seq![e@] + collect_spec(
                        file_views(files@).skip(i as int + 1),
                    )) =~= text_entry_views(out@.push(e)) + collect_spec(
                        file_views(files@).skip(i as int + 1),
                    ));
                }
                out.push(e);
            },
            None => {
                proof {
                    assert(Seq::<TextEntryView>::empty() + collect_spec(
                        file_views(files@).skip(i as int + 1),
                    ) =~= collect_spec(file_views(files@).skip(i as int + 1)));
                }
            },
        }
        i = i + 1;
    }
    proof {
        assert(file_views(files@).skip(n as int) =~= Seq::empty());
        assert(text_entry_views(out@) + Seq::<TextEntryView>::empty() =~= text_entry_views(out@));
        lemma_collect_names_nonempty(file_views(files@));
    }
    out
}

} // verus!
