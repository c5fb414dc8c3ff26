use vstd::prelude::*;
use vstd::string::StringExecFns;

verus! {

/// A format in which metrics can be written out.
#[derive(Debug, Clone, Copy, PartialEq, Eq, Structural)]
pub enum Format {
    Cbor,
    Json,
    Toml,
    Yaml,
}

/// The format that goes by the name `name`, if there is one.
pub open spec fn format_named(name: Seq<char>) -> Option<Format> {
    if name == "cbor"@ {
        Some(Format::Cbor)
    } else if name == "json"@ {
        Some(Format::Json)
    } else if name == "toml"@ {
        Some(Format::Toml)
    } else if name == "yaml"@ {
        Some(Format::Yaml)
    } else {
        None
    }
}

/// What `{:?}` writes for a string with the characters `text`: the string
/// between double quotes, with escapes.
pub uninterp spec fn quoted(text: Seq<char>) -> Seq<char>;

/// Writes the string with `format!` and `{:?}`, that is with the `Debug` of
/// `str`. What comes out depends on the characters of the string alone.
#[verifier::external_body]
fn debug_text(text: &str) -> (written: String)
    ensures
        written@ == quoted(text@),
{
    format!("{:?}", text)
}

fn same_text(a: &str, b: &str) -> (same: bool)
    ensures
        same == (a@ == b@),
{
    String::from_str(a) == String::from_str(b)
}

impl Format {
    /// The names of all the formats.
    pub fn all() -> (names: &'static [&'static str])
        ensures
            names@.len() == 4,
            names@[0]@ == "cbor"@,
            names@[1]@ == "json"@,
            names@[2]@ == "toml"@,
            names@[3]@ == "yaml"@,
    {
        &["cbor", "json", "toml", "yaml"]
    }

    /// The format that goes by the name `format`. Any other name is
    /// answered with a message that quotes it.
    pub fn parse(format: &str) -> (parsed: Result<Format, String>)
        ensures
            match format_named(format@) {
                Some(found) => parsed == Ok::<Format, String>(found),
                None => parsed matches Err(message) && message@ == quoted(format@)
                    + " is not a supported format"@,
            },
    {
        if same_text(format, "cbor") {
            Ok(Format::Cbor)
        } else if same_text(format, "json") {
            Ok(Format::Json)
        } else if same_text(format, "toml") {
            Ok(Format::Toml)
        } else if same_text(format, "yaml") {
            Ok(Format::Yaml)
        } else {
            let mut message = debug_text(format);
            message.append(" is not a supported format");
            Err(message)
        }
    }

    /// The ending of the files that hold this format.
    pub fn extension(&self) -> (ending: &'static str)
        ensures
            ending@ == self.spec_extension(),
    {
        match self {
            Format::Cbor => ".cbor",
            Format::Json => ".json",
            Format::Toml => ".toml",
            Format::Yaml => ".yml",
        }
    }

    /// The ending of the files that hold this format.
    pub open spec fn spec_extension(&self) -> Seq<char> {
        match self {
            Format::Cbor => ".cbor"@,
            Format::Json => ".json"@,
            Format::Toml => ".toml"@,
            Format::Yaml => ".yml"@,
        }
    }

    /// Whether the format can be printed as text: all can but the binary
    /// one.
    pub fn is_printable(&self) -> (printable: bool)
        ensures
            printable == (*self != Format::Cbor),
    {
        match self {
            Format::Cbor => false,
            _ => true,
        }
    }
}

/// The parts of `path` between its slashes, empty ones too: one more than
/// it has slashes.
pub open spec fn segments(path: Seq<char>) -> Seq<Seq<char>>
    decreases path.len(),
{
    if path.len() == 0 {
        seq![Seq::empty()]
    } else {
        let before = segments(path.drop_last());
        if path.last() == '/' {
            before.push(Seq::empty())
        } else {
            before.drop_last().push(before.last().push(path.last()))
        }
    }
}

/// What is kept of one part of a path: nothing of an empty part or of `.`,
/// which lead nowhere; `.` in place of `..`, which would lead out; and any
/// other part as it is.
pub open spec fn kept(segment: Seq<char>) -> Option<Seq<char>> {
    if segment.len() == 0 || segment == seq!['.'] {
        None
    } else if segment == seq!['.', '.'] {
        Some(seq!['.'])
    } else {
        Some(segment)
    }
}

/// What is kept of each of `parts`, in their order.
pub open spec fn cleaned(parts: Seq<Seq<char>>) -> Seq<Seq<char>>
    decreases parts.len(),
{
    if parts.len() == 0 {
        Seq::empty()
    } else {
        let before = cleaned(parts.drop_last());
        match kept(parts.last()) {
            Some(part) => before.push(part),
            None => before,
        }
    }
}

/// `parts` with a slash between each two.
pub open spec fn slashed(parts: Seq<Seq<char>>) -> Seq<char>
    decreases parts.len(),
{
    if parts.len() == 0 {
        Seq::empty()
    } else if parts.len() == 1 {
        parts[0]
    } else {
        slashed(parts.drop_last()) + seq!['/'] + parts.last()
    }
}

/// The path below an output folder at which the metrics of the file at
/// `path` are written: `path` without a leading root, without parts that
/// lead nowhere, and with `.` in place of every `..`, so that it does not
/// lead out of the folder.
pub open spec fn sanitized(path: Seq<char>) -> Seq<char> {
    slashed(cleaned(segments(path)))
}

/// Appends to `out` what is kept of the part of `path` from `start` to
/// `end`, after a slash where `out` holds a part already.
fn keep_segment(out: &mut String, any: &mut bool, path: &str, start: usize, end: usize)
    requires
        start <= end <= path@.len(),
    ensures
        ({
            let part = kept(path@.subrange(start as int, end as int));
            &&& *final(any) == (*old(any) || part.is_some())
            &&& final(out)@ == match part {
                Some(part) => if *old(any) {
                    old(out)@ + seq!['/'] + part
                } else {
                    old(out)@ + part
                },
                None => old(out)@,
            }
        }),
{
    let ghost segment = path@.subrange(start as int, end as int);
    let len = end - start;
    if len == 0 {
        return ;
    }
    let first_is_dot = path.get_char(start) == '.';
    if len == 1 && first_is_dot {
        assert(segment =~= seq!['.']);
        return ;
    }
    proof {
        reveal_strlit("/");
        reveal_strlit(".");
        assert(segment[0] == path@[start as int]);
        assert(segment.len() == len);
        assert(seq!['.'].len() == 1 && seq!['.'][0] == '.');
        assert(segment != seq!['.']);
    }
    if *any {
        out.append("/");
    }
    if len == 2 && first_is_dot && path.get_char(start + 1) == '.' {
        assert(segment =~= seq!['.', '.']);
        out.append(".");
        assert("."@ =~= seq!['.']);
    } else {
        proof {
            assert(segment[0] == path@[start as int]);
            if len == 2 {
                assert(segment[1] == path@[start + 1]);
            }
            assert(seq!['.', '.'].len() == 2 && seq!['.', '.'][0] == '.' && seq!['.', '.'][1] == '.');
            assert(segment != seq!['.', '.']);
        }
        out.append(path.substring_char(start, end));
    }
    *any = true;
    proof {
        assert("/"@ =~= seq!['/']);
    }
}

/// The slashed form grows by a slash and the part, or by the part alone
/// where it is the first.
proof fn lemma_slashed_push(parts: Seq<Seq<char>>, part: Seq<char>)
    ensures
        slashed(parts.push(part)) == if parts.len() == 0 {
            part
        } else {
            slashed(parts) + seq!['/'] + part
        },
{
    assert(parts.push(part).drop_last() =~= parts);
    if parts.len() == 0 {
        assert(parts.push(part)[0] == part);
    }
}

proof fn lemma_cleaned_push(parts: Seq<Seq<char>>, part: Seq<char>)
    ensures
        cleaned(parts.push(part)) == match kept(part) {
            Some(part) => cleaned(parts).push(part),
            None => cleaned(parts),
        },
{
    assert(parts.push(part).drop_last() =~= parts);
}

/// Nothing that is kept of a path is empty or `..`, and nothing holds a
/// slash: the sanitized path stays below the folder it is put in.
pub proof fn lemma_sanitized_stays_inside(path: Seq<char>)
    ensures
        forall|i: int|
            0 <= i < cleaned(segments(path)).len() ==> {
                let part = #[trigger] cleaned(segments(path))[i];
                part.len() > 0 && part != seq!['.', '.'] && !part.contains('/')
            },
{
    lemma_segments_hold_no_slash(path);
    lemma_cleaned_parts(segments(path));
}

/// What follows the last slash of a path, and holds none, lengthens its
/// last part.
proof fn lemma_segments_append(path: Seq<char>, tail: Seq<char>)
    requires
        !tail.contains('/'),
    ensures
        segments(path).len() > 0,
        segments(path + tail) == segments(path).drop_last().push(segments(path).last() + tail),
    decreases tail.len(),
{
    lemma_segments_hold_no_slash(path);
    let parts = segments(path);
    if tail.len() == 0 {
        assert(path + tail =~= path);
        assert(parts.drop_last().push(parts.last() + tail) =~= parts);
    } else {
        let shorter = tail.drop_last();
        let c = tail.last();
        assert(tail[tail.len() - 1] == c);
        assert(c != '/');
        if shorter.contains('/') {
            let k = choose|k: int| 0 <= k < shorter.len() && shorter[k] == '/';
            assert(tail[k] == '/');
        }
        lemma_segments_append(path, shorter);
        assert((path + tail).drop_last() =~= path + shorter);
        assert((path + tail).last() == c);
        let before = segments(path + shorter);
        assert(before.drop_last() =~= parts.drop_last());
        assert(before.last().push(c) =~= parts.last() + tail);
    }
}

/// Parts that hold no slash are the parts of their slashed form.
proof fn lemma_segments_of_slashed(parts: Seq<Seq<char>>)
    requires
        parts.len() > 0,
        forall|i: int| 0 <= i < parts.len() ==> !(#[trigger] parts[i]).contains('/'),
    ensures
        segments(slashed(parts)) == parts,
    decreases parts.len(),
{
    if parts.len() == 1 {
        lemma_segments_append(Seq::empty(), parts[0]);
        assert(Seq::<char>::empty() + parts[0] =~= parts[0]);
        assert(segments(Seq::empty()) =~= seq![Seq::<char>::empty()]);
        assert(segments(slashed(parts)) =~= parts);
    } else {
        let first = parts.drop_last();
        lemma_segments_of_slashed(first);
        let stem = slashed(first) + seq!['/'];
        assert(stem.drop_last() =~= slashed(first));
        assert(stem.last() == '/');
        assert(segments(stem) == first.push(Seq::empty()));
        assert(!parts[parts.len() - 1].contains('/'));
        lemma_segments_append(stem, parts.last());
        assert(first.push(Seq::empty()).drop_last() =~= first);
        assert(Seq::<char>::empty() + parts.last() =~= parts.last());
        assert(segments(slashed(parts)) =~= parts);
    }
}

/// The name of the file that a format writes for a path has no empty part
/// and no part `..`: it does not begin at the root and never leads out of
/// the folder it is put in.
pub proof fn lemma_file_name_stays_inside(format: Format, path: Seq<char>)
    ensures
        forall|i: int|
            0 <= i < segments(sanitized(path) + format.spec_extension()).len() ==> {
                let part = #[trigger] segments(sanitized(path) + format.spec_extension())[i];
                part.len() > 0 && part != seq!['.', '.']
            },
{
    let ending = format.spec_extension();
    reveal_strlit(".cbor");
    reveal_strlit(".json");
    reveal_strlit(".toml");
    reveal_strlit(".yml");
    assert(ending.len() >= 4);
    assert(!ending.contains('/')) by {
        if ending.contains('/') {
            let k = choose|k: int| 0 <= k < ending.len() && ending[k] == '/';
            assert(ending[k] != '/');
        }
    }
    let parts = cleaned(segments(path));
    let name = sanitized(path) + ending;
    lemma_sanitized_stays_inside(path);
    assert(seq!['.', '.'].len() == 2);
    if parts.len() == 0 {
        lemma_segments_append(Seq::empty(), ending);
        assert(segments(Seq::empty()) =~= seq![Seq::<char>::empty()]);
        assert(segments(name) =~= seq![Seq::<char>::empty() + ending]);
    } else {
        lemma_segments_of_slashed(parts);
        lemma_segments_append(slashed(parts), ending);
        assert forall|i: int| 0 <= i < segments(name).len() implies {
            let part = #[trigger] segments(name)[i];
            part.len() > 0 && part != seq!['.', '.']
        } by {
            if i < parts.len() - 1 {
                assert(segments(name)[i] == parts[i]);
            } else {
                assert(segments(name)[i] == parts.last() + ending);
            }
        }
    }
}

proof fn lemma_segments_hold_no_slash(path: Seq<char>)
    ensures
        segments(path).len() > 0,
        forall|i: int| 0 <= i < segments(path).len() ==> !(#[trigger] segments(path)[i]).contains('/'),
    decreases path.len(),
{
    if path.len() > 0 {
        lemma_segments_hold_no_slash(path.drop_last());
        let before = segments(path.drop_last());
        assert forall|i: int| 0 <= i < segments(path).len() implies !(
        #[trigger] segments(path)[i]).contains('/') by {
            if i < before.len() - 1 {
                assert(segments(path)[i] == before[i]);
            } else if path.last() == '/' {
                if i == before.len() - 1 {
                    assert(segments(path)[i] == before[i]);
                }
            } else {
                let grown = before.last().push(path.last());
                assert(segments(path)[i] == grown);
                assert(!before[before.len() - 1].contains('/'));
                if grown.contains('/') {
                    let k = choose|k: int| 0 <= k < grown.len() && grown[k] == '/';
                    assert(before.last()[k] == '/');
                    assert(before.last().contains('/'));
                }
            }
        }
    }
}

proof fn lemma_cleaned_parts(parts: Seq<Seq<char>>)
    requires
        forall|i: int| 0 <= i < parts.len() ==> !(#[trigger] parts[i]).contains('/'),
    ensures
        forall|i: int|
            0 <= i < cleaned(parts).len() ==> {
                let part = #[trigger] cleaned(parts)[i];
                part.len() > 0 && part != seq!['.', '.'] && !part.contains('/')
            },
    decreases parts.len(),
{
    if parts.len() > 0 {
        lemma_cleaned_parts(parts.drop_last());
        let before = cleaned(parts.drop_last());
        assert forall|i: int| 0 <= i < cleaned(parts).len() implies {
            let part = #[trigger] cleaned(parts)[i];
            part.len() > 0 && part != seq!['.', '.'] && !part.contains('/')
        } by {
            if i < before.len() {
                assert(cleaned(parts)[i] == before[i]);
            } else {
                let part = kept(parts.last()).unwrap();
                assert(cleaned(parts)[i] == part);
                assert(!parts[parts.len() - 1].contains('/'));
                if parts.last() == seq!['.', '.'] {
                    assert(part == seq!['.']);
                    assert(part.len() == 1);
                    if part.contains('/') {
                        let k = choose|k: int| 0 <= k < part.len() && part[k] == '/';
                        assert(part[0] == '.');
                    }
                    assert(part != seq!['.', '.']) by {
                        assert(seq!['.', '.'].len() == 2);
                    }
                }
            }
        }
    }
}

impl Format {
    /// The name of the file, below the output folder, in which the metrics
    /// of the file at `path` are written in this format: the sanitized path
    /// with the ending of the format.
    pub fn file_name(&self, path: &str) -> (name: String)
        ensures
            name@ == sanitized(path@) + self.spec_extension(),
    {
        let n = path.unicode_len();
        let mut out = String::new();
        let mut any = false;
        let mut start: usize = 0;
        let mut i: usize = 0;
        let ghost mut done: Seq<Seq<char>> = Seq::empty();
        proof {
            assert(path@.take(0) =~= Seq::empty());
            assert(segments(path@.take(0)) =~= done.push(path@.subrange(0, 0)));
        }
        while i < n
            invariant
                n == path@.len(),
                start <= i <= n,
                segments(path@.take(i as int)) == done.push(path@.subrange(start as int, i as int)),
                out@ == slashed(cleaned(done)),
                any == (cleaned(done).len() > 0),
            decreases n - i,
        {
            let c = path.get_char(i);
            proof {
                assert(path@.take(i + 1).drop_last() =~= path@.take(i as int));
                assert(path@.take(i + 1).last() == c);
            }
            if c == '/' {
                let ghost part = path@.subrange(start as int, i as int);
                keep_segment(&mut out, &mut any, path, start, i);
                proof {
                    lemma_cleaned_push(done, part);
                    if kept(part).is_some() {
                        lemma_slashed_push(cleaned(done), kept(part).unwrap());
                    }
                    done = done.push(part);
                    assert(path@.subrange(i + 1, i + 1) =~= Seq::empty());
                }
                start = i + 1;
            } else {
                proof {
                    let before = segments(path@.take(i as int));
                    assert(before.drop_last() =~= done);
                    assert(before.last().push(c) =~= path@.subrange(start as int, i + 1));
                }
            }
            i += 1;
        }
        let ghost part = path@.subrange(start as int, n as int);
        keep_segment(&mut out, &mut any, path, start, n);
        proof {
            lemma_cleaned_push(done, part);
            if kept(part).is_some() {
                lemma_slashed_push(cleaned(done), kept(part).unwrap());
            }
            assert(path@.take(n as int) =~= path@);
        }
        out.append(self.extension());
        out
    }
}

/// What is to be done to write metrics out.
#[derive(Debug, Clone)]
pub enum Dump {
    /// Print them to the standard output.
    Print,
    /// Write them to the file at `destination`, after making its folders.
    Write { destination: String },
}

/// `folder` and `name` joined as the parts of one path, with a slash
/// between them unless `folder` is empty or ends in one.
pub open spec fn joined_path(folder: Seq<char>, name: Seq<char>) -> Seq<char> {
    if folder.len() == 0 || folder.last() == '/' {
        folder + name
    } else {
        folder + seq!['/'] + name
    }
}

impl Format {
    /// Decides how the metrics of the file at `path` are written out in this
    /// format. With an output folder they go to a file below that folder,
    /// at the sanitized path with the ending of the format. Without one
    /// they are printed, which the binary format refuses.
    pub fn dump_formats(&self, path: &str, output_path: &Option<String>) -> (plan: Result<
        Dump,
        String,
    >)
        ensures
            match *output_path {
                Some(folder) => plan matches Ok(Dump::Write { destination }) && destination@
                    == joined_path(folder@, sanitized(path@) + self.spec_extension()),
                None => if *self == Format::Cbor {
                    plan matches Err(message) && message@
                        == "Cbor format cannot be printed to stdout"@
                } else {
                    plan matches Ok(Dump::Print)
                },
            },
    {
        match output_path {
            None => {
                if self.is_printable() {
                    Ok(Dump::Print)
                } else {
                    Err(String::from_str("Cbor format cannot be printed to stdout"))
                }
            },
            Some(folder) => {
                let name = self.file_name(path);
                let mut destination = folder.clone();
                let len = folder.as_str().unicode_len();
                proof {
                    reveal_strlit("/");
                    assert("/"@ =~= seq!['/']);
                }
                if len > 0 && folder.as_str().get_char(len - 1) != '/' {
                    destination.append("/");
                }
                destination.append(name.as_str());
                Ok(Dump::Write { destination })
            },
        }
    }
}

impl std::str::FromStr for Format {
    type Err = String;

    fn from_str(format: &str) -> (parsed: Result<Format, String>)
        ensures
            match format_named(format@) {
                Some(found) => parsed == Ok::<Format, String>(found),
                None => parsed matches Err(message) && message@ == quoted(format@)
                    + " is not a supported format"@,
            },
    {
        Format::parse(format)
    }
}

} // verus!
