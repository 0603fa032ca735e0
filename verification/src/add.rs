//! Requests to add torrents: the upload form and the fetching of URLs.
use vstd::prelude::*;
use crate::api::BAD_REQUEST;
use crate::ip::Ip;
use crate::path;
use crate::text;
use crate::url;

verus! {

/// The most bytes that a field of the upload form may hold: 32 MiB.
pub const MULTIPART_FIELD_MAX_BYTES: usize = 33_554_432;

/// The most bytes that a fetched `.torrent` file may hold: 32 MiB.
pub const MAX_TORRENT_BYTES: u64 = 33_554_432;

/// What an upload form asks for.
pub struct AddForm {
    pub urls: Vec<String>,
    pub torrents: Vec<Vec<u8>>,
    pub savepath: Option<String>,
    pub paused: bool,
    pub category: String,
}

/// The contents of an `AddForm`.
#[verifier::ext_equal]
pub struct FormView {
    pub urls: Seq<Seq<char>>,
    pub torrents: Seq<Seq<u8>>,
    pub savepath: Option<Seq<char>>,
    pub paused: bool,
    pub category: Seq<char>,
}

impl View for AddForm {
    type V = FormView;

    open spec fn view(&self) -> FormView {
        FormView {
            urls: text::strings(self.urls@),
            torrents: crate::meta::byte_strings(self.torrents@),
            savepath: match self.savepath {
                Some(s) => Some(s@),
                None => None,
            },
            paused: self.paused,
            category: self.category@,
        }
    }
}

/// The first `n` lines that hold more than white space, without the white space around them.
pub open spec fn filled_lines(lines: Seq<Seq<char>>, n: int) -> Seq<Seq<char>>
    decreases n,
{
    if n <= 0 {
        Seq::empty()
    } else {
        let before = filled_lines(lines, n - 1);
        let line = text::trim(lines[n - 1]);
        if line.len() > 0 {
            before.push(line)
        } else {
            before
        }
    }
}

/// The lines of a text that hold more than white space.
pub open spec fn lines_of(t: Seq<char>) -> Seq<Seq<char>> {
    let lines = text::split(t, '\n');
    filled_lines(lines, lines.len() as int)
}

/// The bytes of the word `true`.
pub open spec fn true_bytes() -> Seq<u8> {
    seq![0x74u8, 0x72u8, 0x75u8, 0x65u8]
}

/// The form with one field more. Fields that are not known, and text that is not UTF-8, change
/// nothing.
pub open spec fn with_field(form: FormView, name: Seq<char>, value: Seq<u8>) -> FormView {
    if name == "urls"@ {
        if vstd::utf8::valid_utf8(value) {
            FormView { urls: form.urls + lines_of(vstd::utf8::decode_utf8(value)), ..form }
        } else {
            form
        }
    } else if name == "torrents"@ {
        if value.len() > 0 {
            FormView { torrents: form.torrents.push(value), ..form }
        } else {
            form
        }
    } else if name == "savepath"@ {
        if vstd::utf8::valid_utf8(value) {
            FormView { savepath: Some(vstd::utf8::decode_utf8(value)), ..form }
        } else {
            form
        }
    } else if name == "paused"@ || name == "stopped"@ {
        FormView { paused: form.paused || value == true_bytes(), ..form }
    } else if name == "category"@ {
        if vstd::utf8::valid_utf8(value) {
            FormView { category: vstd::utf8::decode_utf8(value), ..form }
        } else {
            form
        }
    } else {
        form
    }
}

fn is_word_true(value: &Vec<u8>) -> (r: bool)
    ensures
        r == (value@ == true_bytes()),
{
    let r = value.len() == 4 && value[0] == 0x74 && value[1] == 0x72 && value[2] == 0x75 && value[3]
        == 0x65;
    assert(r ==> value@ =~= true_bytes());
    r
}

/// Adds a chunk to the bytes of a field; refuses it if the field would become too large.
pub fn append_chunk(field: &mut Vec<u8>, chunk: &[u8]) -> (r: bool)
    ensures
        r == (old(field)@.len() + chunk@.len() <= MULTIPART_FIELD_MAX_BYTES),
        final(field)@ == (if r {
            old(field)@ + chunk@
        } else {
            old(field)@
        }),
{
    if field.len() > MULTIPART_FIELD_MAX_BYTES || chunk.len() > MULTIPART_FIELD_MAX_BYTES
        - field.len() {
        return false;
    }
    field.extend_from_slice(chunk);
    true
}

/// What is wrong with a form: its path is not allowed, or one of its URLs is not. `literals` are
/// the addresses that the hosts of the URLs read as.
pub open spec fn form_problem(
    form: FormView,
    download_dir: Seq<char>,
    literals: Seq<Option<Ip>>,
) -> Option<Seq<char>> {
    if form.savepath matches Some(sp) && !path::is_allowed(sp, download_dir) {
        Some("Invalid savepath."@)
    } else if exists|i: int|
        0 <= i < form.urls.len() && url::url_problem(#[trigger] form.urls[i], literals[i]) is Some {
        Some("Invalid URL."@)
    } else {
        None
    }
}

/// The addresses are what the reader gives for the hosts of the URLs.
pub open spec fn are_read<F: Fn(&str) -> Option<Ip>>(
    read: F,
    urls: Seq<Seq<char>>,
    literals: Seq<Option<Ip>>,
) -> bool {
    &&& literals.len() == urls.len()
    &&& forall|i: int|
        0 <= i < urls.len() && url::form_problem(#[trigger] urls[i]) is None ==> crate::ip::reads(
            read,
            url::host(urls[i]),
            literals[i],
        )
}

/// `problem` is what is wrong with a form whose hosts the reader was asked about.
pub open spec fn form_judged<F: Fn(&str) -> Option<Ip>>(
    read: F,
    form: FormView,
    download_dir: Seq<char>,
    problem: Option<Seq<char>>,
) -> bool {
    exists|literals: Seq<Option<Ip>>| #[trigger]
        are_read(read, form.urls, literals) && problem == form_problem(
            form,
            download_dir,
            literals,
        )
}

/// Where the torrents of a form are saved: under its path, or in the download directory if it has
/// none or an empty one.
pub open spec fn save_path_of(form: FormView, download_dir: Seq<char>) -> Seq<char> {
    match form.savepath {
        Some(sp) => if sp.len() > 0 {
            sp
        } else {
            download_dir
        },
        None => download_dir,
    }
}

impl AddForm {
    /// A form without fields.
    pub fn new() -> (r: AddForm)
        ensures
            r@ == (FormView {
                urls: Seq::empty(),
                torrents: Seq::empty(),
                savepath: None,
                paused: false,
                category: Seq::empty(),
            }),
    {
        AddForm {
            urls: Vec::new(),
            torrents: Vec::new(),
            savepath: None,
            paused: false,
            category: String::new(),
        }
    }

    fn push_lines(&mut self, t: &str)
        ensures
            final(self)@ == (FormView { urls: old(self)@.urls + lines_of(t@), ..old(self)@ }),
    {
        let lines = text::split_at_char(&text::chars_of(t), '\n');
        let ghost all = text::split(t@, '\n');
        let ghost before = self@;
        let mut i: usize = 0;
        while i < lines.len()
            invariant
                i <= lines@.len(),
                text::texts(lines@) == all,
                self@ == (FormView { urls: before.urls + filled_lines(all, i as int), ..before }),
            decreases lines@.len() - i,
        {
            let line = text::trimmed(&lines[i]);
            let ghost so_far = self@;
            if line.len() > 0 {
                let url = text::string_of(&line);
                self.urls.push(url);
                assert(self@.urls =~= so_far.urls.push(line@));
            }
            i += 1;
        }
    }

    /// Takes note of a field of the form.
    pub fn take_field(&mut self, name: &str, value: Vec<u8>)
        ensures
            final(self)@ == with_field(old(self)@, name@, value@),
    {
        if text::same_str(name, "urls") {
            if let Some(t) = text::text_from_utf8(&value) {
                self.push_lines(&t);
            }
        } else if text::same_str(name, "torrents") {
            if value.len() > 0 {
                self.torrents.push(value);
            }
        } else if text::same_str(name, "savepath") {
            if let Some(t) = text::text_from_utf8(&value) {
                self.savepath = Some(t);
            }
        } else if text::same_str(name, "paused") || text::same_str(name, "stopped") {
            if is_word_true(&value) {
                self.paused = true;
            }
        } else if text::same_str(name, "category") {
            if let Some(t) = text::text_from_utf8(&value) {
                self.category = t;
            }
        }
    }

    /// The addresses that the hosts of the URLs read as, one for each URL.
    fn read_hosts<F: Fn(&str) -> Option<Ip>>(&self, read: &F) -> (r: Vec<Option<Ip>>)
        requires
            crate::ip::is_reader(*read),
        ensures
            are_read(*read, self@.urls, r@),
    {
        let mut out: Vec<Option<Ip>> = Vec::new();
        let mut i: usize = 0;
        while i < self.urls.len()
            invariant
                i <= self.urls@.len(),
                crate::ip::is_reader(*read),
                are_read(*read, self@.urls.take(i as int), out@),
            decreases self.urls@.len() - i,
        {
            assert(self.urls@[i as int]@ == self@.urls[i as int]);
            out.push(url::read_host(&self.urls[i], read));
            i += 1;
        }
        assert(self@.urls.take(self@.urls.len() as int) =~= self@.urls);
        out
    }

    /// Whether a form can be carried out; if not, the status and the text that it is answered.
    /// `read` tells the address that a text stands for.
    pub fn check<F: Fn(&str) -> Option<Ip>>(&self, download_dir: &str, read: &F) -> (r: Result<
        (),
        (u16, &'static str),
    >)
        requires
            crate::ip::is_reader(*read),
        ensures
            match r {
                Ok(()) => form_judged(*read, self@, download_dir@, None),
                Err((status, body)) => status == BAD_REQUEST && form_judged(
                    *read,
                    self@,
                    download_dir@,
                    Some(body@),
                ),
            },
    {
        self.judge(download_dir, &self.read_hosts(read))
    }

    /// Whether a form can be carried out; if not, the status and the text that it is answered.
    /// `literals` are the addresses that the hosts of the URLs read as, one for each URL.
    pub fn judge(&self, download_dir: &str, literals: &Vec<Option<Ip>>) -> (r: Result<
        (),
        (u16, &'static str),
    >)
        requires
            literals@.len() == self@.urls.len(),
        ensures
            match r {
                Ok(()) => form_problem(self@, download_dir@, literals@) is None,
                Err((status, body)) => status == BAD_REQUEST && form_problem(
                    self@,
                    download_dir@,
                    literals@,
                ) == Some(body@),
            },
    {
        if let Some(sp) = &self.savepath {
            if !path::validate_save_path(sp, download_dir) {
                return Err((BAD_REQUEST, "Invalid savepath."));
            }
        }
        let mut i: usize = 0;
        while i < self.urls.len()
            invariant
                i <= self.urls@.len(),
                literals@.len() == self@.urls.len(),
                self@.savepath matches Some(sp) ==> path::is_allowed(sp, download_dir@),
                forall|j: int|
                    0 <= j < i ==> url::url_problem(#[trigger] self@.urls[j], literals@[j]) is None,
            decreases self.urls@.len() - i,
        {
            assert(self.urls@[i as int]@ == self@.urls[i as int]);
            if let Err(_) = url::judge_add_url(&self.urls[i], literals[i]) {
                return Err((BAD_REQUEST, "Invalid URL."));
            }
            i += 1;
        }
        Ok(())
    }

    /// Where the torrents of the form are saved.
    pub fn effective_save_path(&self, download_dir: &str) -> (r: String)
        ensures
            r@ == save_path_of(self@, download_dir@),
    {
        if let Some(sp) = &self.savepath {
            if text::chars_of(sp).len() > 0 {
                return sp.clone();
            }
        }
        String::from_str(download_dir)
    }
}

/// Why a fetched `.torrent` file is not used.
#[derive(Clone, Copy, Debug, PartialEq, Eq, Structural)]
pub enum FetchError {
    /// The server did not answer with success but with this status.
    Status(u16),
    /// The file has this many bytes.
    TooLarge(u64),
}

/// Decides from the head of the answer whether a `.torrent` file is fetched.
pub fn check_fetch_head(status: u16, content_length: Option<u64>) -> (r: Result<(), FetchError>)
    ensures
        r == (if !(200 <= status < 300) {
            Err::<(), FetchError>(FetchError::Status(status))
        } else {
            match content_length {
                Some(n) => if n > MAX_TORRENT_BYTES {
                    Err::<(), FetchError>(FetchError::TooLarge(n))
                } else {
                    Ok::<(), FetchError>(())
                },
                None => Ok::<(), FetchError>(()),
            }
        }),
{
    if status < 200 || status >= 300 {
        return Err(FetchError::Status(status));
    }
    match content_length {
        Some(n) => check_fetch_size(n),
        None => Ok(()),
    }
}

/// Decides from its size whether a fetched `.torrent` file is used.
pub fn check_fetch_size(len: u64) -> (r: Result<(), FetchError>)
    ensures
        r == (if len > MAX_TORRENT_BYTES {
            Err::<(), FetchError>(FetchError::TooLarge(len))
        } else {
            Ok::<(), FetchError>(())
        }),
{
    if len > MAX_TORRENT_BYTES {
        return Err(FetchError::TooLarge(len));
    }
    Ok(())
}

/// A form that can be carried out saves in the download directory itself or under a path that does
/// not climb and, if absolute, lies under the download directory; and it fetches only http and
/// https URLs whose hosts are public.
pub proof fn accepted_forms_are_safe(
    form: FormView,
    download_dir: Seq<char>,
    literals: Seq<Option<Ip>>,
)
    requires
        form_problem(form, download_dir, literals) is None,
        literals.len() == form.urls.len(),
    ensures
        ({
            let sp = save_path_of(form, download_dir);
            ||| sp == download_dir
            ||| !path::climbs(sp) && (path::is_absolute(sp) ==> path::steps(
                download_dir,
            ).is_prefix_of(path::steps(sp)))
        }),
        forall|i: int| #![trigger form.urls[i]]
            0 <= i < form.urls.len() ==> {
                &&& url::begins_with_any_case(form.urls[i], "http://"@)
                    || url::begins_with_any_case(form.urls[i], "https://"@)
                &&& match literals[i] {
                    Some(ip) => !crate::ip::is_forbidden(ip),
                    None => !url::is_forbidden_name(url::host(form.urls[i])),
                }
            },
{
    if let Some(sp) = form.savepath {
        path::allowed_paths_never_climb(sp, download_dir);
    }
}

/// A form that is carried out fetches only URLs that are accepted, each by what its own host reads
/// as.
pub proof fn checked_forms_have_accepted_urls<F: Fn(&str) -> Option<Ip>>(
    read: F,
    form: FormView,
    download_dir: Seq<char>,
)
    requires
        form_judged(read, form, download_dir, None),
    ensures
        forall|i: int| 0 <= i < form.urls.len() ==> url::judged(read, #[trigger] form.urls[i], None),
{
    let literals = choose|literals: Seq<Option<Ip>>| #[trigger]
        are_read(read, form.urls, literals) && form_problem(form, download_dir, literals) is None;
    assert forall|i: int| 0 <= i < form.urls.len() implies url::judged(
        read,
        #[trigger] form.urls[i],
        None,
    ) by {
        assert(url::url_problem(form.urls[i], literals[i]) is None);
        assert(crate::ip::reads(read, url::host(form.urls[i]), literals[i]));
    }
}

/// Once a form asks for its torrents to be paused, no later field takes that back.
pub proof fn paused_stays(form: FormView, name: Seq<char>, value: Seq<u8>)
    requires
        form.paused,
    ensures
        with_field(form, name, value).paused,
{
}

/// Text that is sent as a category or a path is read as it was written, and a single URL without
/// white space or line breaks is added as it was written.
pub proof fn text_fields_read_back(form: FormView, t: Seq<char>)
    ensures
        with_field(form, "category"@, vstd::utf8::encode_utf8(t)).category == t,
        with_field(form, "savepath"@, vstd::utf8::encode_utf8(t)).savepath == Some(t),
        t.len() > 0 && (forall|i: int| 0 <= i < t.len() ==> !text::is_whitespace(#[trigger] t[i]))
            ==> with_field(form, "urls"@, vstd::utf8::encode_utf8(t)).urls == form.urls.push(t),
{
    vstd::utf8::encode_utf8_valid_utf8(t);
    vstd::utf8::encode_utf8_decode_utf8(t);
    reveal_strlit("urls");
    reveal_strlit("torrents");
    reveal_strlit("savepath");
    reveal_strlit("paused");
    reveal_strlit("stopped");
    reveal_strlit("category");
    assert("savepath"@[0] == 's' && "urls"@[0] == 'u' && "torrents"@[0] == 't');
    assert("category"@[0] == 'c' && "paused"@[0] == 'p' && "stopped"@[0] == 's');
    if t.len() > 0 && (forall|i: int|
        0 <= i < t.len() ==> !text::is_whitespace(#[trigger] t[i])) {
        text::split_without_separator(t, '\n');
        assert(filled_lines(seq![t], 0) =~= Seq::<Seq<char>>::empty());
    }
}

/// A field changes only its own part of the form. A non-empty `torrents` field comes after the
/// files taken before it, which stay as they are and in order; the lines of a `urls` field come
/// after the URLs taken before it; a `savepath` or `category` field takes the place of an earlier
/// one; `paused` or `stopped` with the value `true` sets the flag.
pub proof fn fields_change_only_their_part(form: FormView, name: Seq<char>, value: Seq<u8>)
    ensures
        ({
            let u = with_field(form, name, value);
            let is_text = vstd::utf8::valid_utf8(value);
            let t = vstd::utf8::decode_utf8(value);
            &&& name == "torrents"@ && value.len() > 0 ==> {
                &&& u.torrents.len() == form.torrents.len() + 1
                &&& u.torrents.last() == value
                &&& u.torrents.drop_last() == form.torrents
            }
            &&& !(name == "torrents"@ && value.len() > 0) ==> u.torrents == form.torrents
            &&& name == "urls"@ && is_text ==> {
                &&& form.urls.is_prefix_of(u.urls)
                &&& u.urls.skip(form.urls.len() as int) == lines_of(t)
            }
            &&& !(name == "urls"@ && is_text) ==> u.urls == form.urls
            &&& name == "savepath"@ && is_text ==> u.savepath == Some(t)
            &&& !(name == "savepath"@ && is_text) ==> u.savepath == form.savepath
            &&& name == "category"@ && is_text ==> u.category == t
            &&& !(name == "category"@ && is_text) ==> u.category == form.category
            &&& u.paused <==> form.paused || ((name == "paused"@ || name == "stopped"@) && value
                == seq![116u8, 114u8, 117u8, 101u8])
        }),
{
    reveal_strlit("urls");
    reveal_strlit("torrents");
    reveal_strlit("savepath");
    reveal_strlit("paused");
    reveal_strlit("stopped");
    reveal_strlit("category");
    assert("savepath"@[0] == 's' && "urls"@[0] == 'u' && "torrents"@[0] == 't');
    assert("category"@[0] == 'c' && "paused"@[0] == 'p' && "stopped"@[0] == 's');
    assert("savepath"@[1] == 'a' && "stopped"@[1] == 't');
    let u = with_field(form, name, value);
    if name == "torrents"@ && value.len() > 0 {
        assert(u.torrents.drop_last() =~= form.torrents);
    }
    if name == "urls"@ && vstd::utf8::valid_utf8(value) {
        assert(u.urls.skip(form.urls.len() as int) =~= lines_of(vstd::utf8::decode_utf8(value)));
    }
}

/// The form after the first `n` fields.
pub open spec fn after_fields(
    form: FormView,
    fields: Seq<(Seq<char>, Seq<u8>)>,
    n: int,
) -> FormView
    decreases n,
{
    if n <= 0 {
        form
    } else {
        with_field(after_fields(form, fields, n - 1), fields[n - 1].0, fields[n - 1].1)
    }
}

/// The values of the non-empty `torrents` fields among the first `n`, in the order sent.
pub open spec fn files_sent(fields: Seq<(Seq<char>, Seq<u8>)>, n: int) -> Seq<Seq<u8>>
    decreases n,
{
    if n <= 0 {
        Seq::empty()
    } else if fields[n - 1].0 == "torrents"@ && fields[n - 1].1.len() > 0 {
        files_sent(fields, n - 1).push(fields[n - 1].1)
    } else {
        files_sent(fields, n - 1)
    }
}

/// After any fields a form holds exactly the files that were sent, in the order sent, after those
/// that it held before; and it asks for a pause exactly if it did before or a field did.
pub proof fn forms_hold_the_files_sent(form: FormView, fields: Seq<(Seq<char>, Seq<u8>)>, n: int)
    requires
        0 <= n <= fields.len(),
    ensures
        after_fields(form, fields, n).torrents == form.torrents + files_sent(fields, n),
        after_fields(form, fields, n).paused <==> form.paused || exists|i: int|
            0 <= i < n && ((#[trigger] fields[i]).0 == "paused"@ || fields[i].0 == "stopped"@)
                && fields[i].1 == seq![116u8, 114u8, 117u8, 101u8],
    decreases n,
{
    if n > 0 {
        forms_hold_the_files_sent(form, fields, n - 1);
        let before = after_fields(form, fields, n - 1);
        let field = fields[n - 1];
        fields_change_only_their_part(before, field.0, field.1);
        let after = with_field(before, field.0, field.1);
        if field.0 == "torrents"@ && field.1.len() > 0 {
            assert(after.torrents =~= after.torrents.drop_last().push(after.torrents.last()));
            assert((form.torrents + files_sent(fields, n - 1)).push(field.1) =~= form.torrents
                + files_sent(fields, n - 1).push(field.1));
        }
    } else {
        assert(form.torrents + files_sent(fields, 0) =~= form.torrents);
    }
}

/// The URLs in a text are its lines, without the white space around them, and without the lines
/// that hold nothing else: one line gives at most one, and the lines of two texts on top of each
/// other are those of the one and then those of the other.
pub proof fn lines_are_taken_one_by_one(a: Seq<char>, b: Seq<char>)
    ensures
        lines_of(a.push('\n') + b) == lines_of(a) + lines_of(b),
        !a.contains('\n') && text::trim(a).len() > 0 ==> lines_of(a) == seq![text::trim(a)],
        !a.contains('\n') && text::trim(a).len() == 0 ==> lines_of(a).len() == 0,
{
    let x = text::split(a, '\n');
    let y = text::split(b, '\n');
    text::split_joins(a, b, '\n');
    lemma_filled_lines(x, y, y.len() as int);
    if !a.contains('\n') {
        assert forall|i: int| 0 <= i < a.len() implies a[i] != '\n' by {
            if a[i] == '\n' {
                assert(a.contains('\n'));
            }
        }
        text::split_without_separator(a, '\n');
        assert(filled_lines(x, 0) =~= Seq::<Seq<char>>::empty());
        assert(filled_lines(x, 1) == filled_lines(x, x.len() as int));
    }
}

proof fn lemma_filled_lines(x: Seq<Seq<char>>, y: Seq<Seq<char>>, n: int)
    requires
        0 <= n <= y.len(),
    ensures
        filled_lines(x + y, x.len() + n) == filled_lines(x, x.len() as int) + filled_lines(y, n),
    decreases n,
{
    if n > 0 {
        lemma_filled_lines(x, y, n - 1);
        assert((x + y)[x.len() + n - 1] == y[n - 1]);
        let line = text::trim(y[n - 1]);
        let head = filled_lines(x, x.len() as int);
        let tail = filled_lines(y, n - 1);
        assert((head + tail).push(line) =~= head + tail.push(line));
    } else {
        lemma_filled_prefix(x, y, x.len() as int);
        assert(filled_lines(x, x.len() as int) + filled_lines(y, 0) =~= filled_lines(
            x,
            x.len() as int,
        ));
    }
}

proof fn lemma_filled_prefix(x: Seq<Seq<char>>, y: Seq<Seq<char>>, n: int)
    requires
        0 <= n <= x.len(),
    ensures
        filled_lines(x + y, n) == filled_lines(x, n),
    decreases n,
{
    if n > 0 {
        lemma_filled_prefix(x, y, n - 1);
        assert((x + y)[n - 1] == x[n - 1]);
    }
}

/// A form is refused for its path exactly if it has one that is not allowed, else for a URL exactly
/// if one of them is not accepted, and else not at all.
pub proof fn forms_are_refused_for_path_or_url(
    form: FormView,
    download_dir: Seq<char>,
    literals: Seq<Option<Ip>>,
)
    requires
        literals.len() == form.urls.len(),
    ensures
        ({
            let bad_path = form.savepath is Some && !path::is_allowed(
                form.savepath->0,
                download_dir,
            );
            let all_good = forall|i: int|
                0 <= i < form.urls.len() ==> url::url_problem(#[trigger] form.urls[i], literals[i])
                    is None;
            let r = form_problem(form, download_dir, literals);
            &&& bad_path ==> r == Some("Invalid savepath."@)
            &&& !bad_path && !all_good ==> r == Some("Invalid URL."@)
            &&& !bad_path && all_good ==> r is None
        }),
{
}

/// A form without a path, or with an empty one, saves in the download directory; any other path is
/// used as it is.
pub proof fn only_a_path_that_is_there_is_used(form: FormView, download_dir: Seq<char>)
    ensures
        form.savepath is None ==> save_path_of(form, download_dir) == download_dir,
        form.savepath matches Some(sp) ==> (sp.len() == 0 ==> save_path_of(form, download_dir)
            == download_dir) && (sp.len() > 0 ==> save_path_of(form, download_dir) == sp),
{
}

/// A field and a fetched file have at most 32 MiB.
pub proof fn sizes_are_bounded()
    ensures
        MULTIPART_FIELD_MAX_BYTES == 32 * 1024 * 1024,
        MAX_TORRENT_BYTES == 32 * 1024 * 1024,
{
}

/// What is wrong with a form is what its hosts read as makes of it, if the reader gives one answer
/// only for each of them.
pub proof fn form_judgement_follows_the_readings<F: Fn(&str) -> Option<Ip>>(
    read: F,
    form: FormView,
    download_dir: Seq<char>,
    literals: Seq<Option<Ip>>,
    problem: Option<Seq<char>>,
)
    requires
        literals.len() == form.urls.len(),
        forall|i: int|
            0 <= i < form.urls.len() && url::form_problem(#[trigger] form.urls[i]) is None
                ==> crate::ip::reads(read, url::host(form.urls[i]), literals[i]),
        forall|t: Seq<char>, a: Option<Ip>, b: Option<Ip>| #[trigger]
            crate::ip::reads(read, t, a) && #[trigger] crate::ip::reads(read, t, b) ==> a == b,
    ensures
        form_judged(read, form, download_dir, problem) <==> problem == form_problem(
            form,
            download_dir,
            literals,
        ),
{
    assert(are_read(read, form.urls, literals));
    if form_judged(read, form, download_dir, problem) {
        let others = choose|others: Seq<Option<Ip>>| #[trigger]
            are_read(read, form.urls, others) && problem == form_problem(
                form,
                download_dir,
                others,
            );
        assert forall|i: int| 0 <= i < form.urls.len() implies url::url_problem(
            #[trigger] form.urls[i],
            others[i],
        ) == url::url_problem(form.urls[i], literals[i]) by {
            if url::form_problem(form.urls[i]) is None {
                assert(crate::ip::reads(read, url::host(form.urls[i]), others[i]));
            }
        }
        if exists|i: int|
            0 <= i < form.urls.len() && url::url_problem(
                #[trigger] form.urls[i],
                others[i],
            ) is Some {
            let i = choose|i: int|
                0 <= i < form.urls.len() && url::url_problem(
                    #[trigger] form.urls[i],
                    others[i],
                ) is Some;
            assert(url::url_problem(form.urls[i], literals[i]) is Some);
        }
        if exists|i: int|
            0 <= i < form.urls.len() && url::url_problem(
                #[trigger] form.urls[i],
                literals[i],
            ) is Some {
            let i = choose|i: int|
                0 <= i < form.urls.len() && url::url_problem(
                    #[trigger] form.urls[i],
                    literals[i],
                ) is Some;
            assert(url::url_problem(form.urls[i], others[i]) is Some);
        }
    }
}

} // verus!
