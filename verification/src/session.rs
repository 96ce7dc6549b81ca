//! The state the header server keeps between requests (open documents, the
//! user's identity, when each header was last rewritten) and what it decides
//! on each request.
use tower_lsp::lsp_types::Url;
use vstd::prelude::*;
use vstd::string::*;
use vstd::utf8::*;
use crate::config::{
    default_email, email_for, opt_view, resolve_config, resolved_email, resolved_username,
    UserConfig, DEFAULT_USERNAME,
};
use crate::datetime::{chrono_parse, date_text, kept_date, whole_seconds, LocalTime, DATE_FORMAT};
use crate::delimiters::{style_for, unicode_lowercase};
use crate::fields::field_text;
use crate::header::{
    author_text, creator_of, fits_field, header_info_at, header_is_readable, header_readable,
    lemma_read_field_fits, lemma_rendered_header_reads_back, make_header_info, no_newline,
    render_header, rendered, updated_fields, HeaderInfo,
};
use crate::lines::{extract_header, header_of};
use crate::store::UriMap;
use crate::template::{
    field_width, AUTHOR_FIELD, CREATEDAT_FIELD, CREATEDBY_FIELD, FILENAME_FIELD, UPDATEDAT_FIELD,
    UPDATEDBY_FIELD,
};
use crate::text::{str_eq, trim_chars};
use crate::uri::{filename_from_uri, last_segment, parse_uri, parsed_uri, percent_decoded};

verus! {

/// The command that inserts or updates a header.
pub const INSERT_HEADER_COMMAND: &'static str = "42header.insertHeader";

/// The line before which an existing header is replaced.
pub const HEADER_END_LINE: u32 = 12;

/// The title of the action on a document that has a header.
pub const UPDATE_TITLE: &'static str = "Update 42 Header";

/// The title of the action on a document without a header.
pub const INSERT_TITLE: &'static str = "Insert 42 Header";

/// How long after a header was rewritten a save leaves it alone, in
/// nanoseconds (the rewrite itself is saved again by the editor).
pub const QUIET_PERIOD_NS: u64 = 2000000000;

/// The start of the message that tells an unconfigured user where to set
/// their identity; the path of the configuration file follows.
pub const SETUP_GUIDE_HEAD: &'static str =
    "42 Header: Using system username. To set your 42 login, create ";

/// The rest of that message.
pub const SETUP_GUIDE_TAIL: &'static str = ":\n\nusername = \"YOUR_LOGIN\"\nemail = \"YOUR_LOGIN@student.42.fr\"\n\nOr add to Zed settings (Cmd+,):\n\n\"lsp\": { \"header-42-lsp\": { \"initialization_options\": { \"username\": \"YOUR_LOGIN\", \"email\": \"YOUR_LOGIN@student.42.fr\" } } }";

/// The start of the message logged once the server is initialized; the user
/// name follows.
pub const INITIALIZED_HEAD: &'static str = "42 Header LSP initialized (user: ";

/// The end of that message.
pub const INITIALIZED_TAIL: &'static str = ")";

/// An open document.
pub struct Document {
    pub content: String,
    pub language_id: String,
}

/// Who writes the headers.
pub struct Identity {
    pub username: String,
    pub email: String,
    /// The user name came from the editor settings or a configuration file.
    pub configured: bool,
}

impl Identity {
    /// The address written in headers: the configured one, or the default
    /// one for the user name when it is empty.
    pub open spec fn mail(&self) -> Seq<char> {
        if self.email@.len() == 0 {
            default_email(self.username@)
        } else {
            self.email@
        }
    }

    /// The identity before any configuration was read.
    pub fn initial() -> (r: Self)
        ensures
            r.username@ == DEFAULT_USERNAME@,
            r.email@ == Seq::<char>::empty(),
            !r.configured,
    {
        Identity {
            username: String::from_str(DEFAULT_USERNAME),
            email: String::new(),
            configured: false,
        }
    }

    /// The identity that the three sources give (see `resolve_config`); it
    /// counts as configured when the editor settings or a file gave a user name.
    pub fn from_sources(init_opts: UserConfig, file_cfg: UserConfig, env_cfg: UserConfig) -> (r:
        Self)
        ensures
            r.username@ == resolved_username(init_opts, file_cfg, env_cfg),
            r.email@ == resolved_email(init_opts, file_cfg, env_cfg),
            r.configured == (init_opts.username is Some || file_cfg.username is Some),
    {
        let configured = init_opts.username.is_some() || file_cfg.username.is_some();
        let (username, email) = resolve_config(init_opts, file_cfg, env_cfg);
        Identity { username, email, configured }
    }

    /// The address written in headers (see `mail`).
    pub fn email_or_default(&self) -> (r: String)
        ensures
            r@ == self.mail(),
    {
        if self.email.as_str().is_empty() {
            email_for(self.username.as_str())
        } else {
            self.email.clone()
        }
    }

    /// The information of a new header for `filename` written by this user at
    /// `now`; an existing header keeps its creator and creation date.
    pub fn make_header_info(&self, filename: &str, existing: Option<&HeaderInfo>, now: LocalTime) -> (r:
        HeaderInfo)
        requires
            now.valid(),
            existing matches Some(e) ==> e.wf(),
        ensures
            r.wf(),
            r.fields() == updated_fields(
                self.username@,
                self.mail(),
                filename@,
                creator_of(existing),
                now,
            ),
    {
        let mail = self.email_or_default();
        make_header_info(self.username.as_str(), mail.as_str(), filename, existing, now)
    }

    /// The message that tells an unconfigured user how to set their identity,
    /// naming the configuration file `config_path`; none for a configured user.
    pub fn setup_guide(&self, config_path: &str) -> (r: Option<String>)
        ensures
            self.configured ==> r is None,
            !self.configured ==> (r matches Some(m) && m@ == SETUP_GUIDE_HEAD@ + config_path@
                + SETUP_GUIDE_TAIL@),
    {
        if self.configured {
            None
        } else {
            let mut m = String::from_str(SETUP_GUIDE_HEAD);
            m.append(config_path);
            m.append(SETUP_GUIDE_TAIL);
            Some(m)
        }
    }

    /// The message logged once the server is initialized.
    pub fn initialized_message(&self) -> (r: String)
        ensures
            r@ == INITIALIZED_HEAD@ + self.username@ + INITIALIZED_TAIL@,
    {
        let mut m = String::from_str(INITIALIZED_HEAD);
        m.append(self.username.as_str());
        m.append(INITIALIZED_TAIL);
        m
    }
}

/// A replacement of the top of a document: the lines before `end_line` (none
/// when it is 0) give way to `new_text`.
pub struct HeaderEdit {
    pub end_line: u32,
    pub new_text: String,
}

/// What the header command does.
pub enum CommandOutcome {
    /// Nothing: another command, no usable argument, or a document that is not open.
    Nothing,
    /// The edit `edit` of the document `uri` (whose serialization is `key`).
    Edit { uri: Url, key: String, edit: HeaderEdit },
    /// The document's header cannot be read: a field offset falls inside a character.
    UnreadableHeader,
}

/// The URI (serialization and path) of the document that the command
/// `command` with the first argument `argument` is about: the URI that the
/// argument parses as, when the command is the header command.
pub open spec fn command_target(command: Seq<char>, argument: Option<Seq<char>>) -> Option<
    (Seq<char>, Seq<char>),
> {
    if command == INSERT_HEADER_COMMAND@ {
        match argument {
            Some(a) => parsed_uri(a),
            None => None,
        }
    } else {
        None
    }
}

/// An edit offered to the user, under a title.
pub struct HeaderAction {
    pub title: String,
    pub edit: HeaderEdit,
}

/// The file name shown in the header of the document whose URI has the path `path`.
pub open spec fn doc_filename(path: Seq<char>) -> Seq<char> {
    percent_decoded(last_segment(encode_utf8(path)))
}

/// The header written by `id` at `now` for a document in `language` named
/// `filename`, keeping `creator` (the creator and creation date of the header
/// it replaces, if any).
pub open spec fn new_header(
    id: Identity,
    language: Seq<char>,
    filename: Seq<char>,
    creator: Option<(Seq<char>, LocalTime)>,
    now: LocalTime,
) -> Seq<u8> {
    rendered(
        style_for(unicode_lowercase(language), filename),
        updated_fields(id.username@, id.mail(), filename, creator, now),
    )
}

/// `text` and `end_line` are the header edit of a document with `content`:
/// with a header at its top, it replaces the header's lines by a new header
/// that keeps the creator written there and the creation date written there
/// (or `now`, where that date cannot be read; see `kept_date`); without one,
/// it inserts a new header.
pub open spec fn is_header_edit(
    text: Seq<char>,
    end_line: u32,
    id: Identity,
    content: Seq<char>,
    language: Seq<char>,
    filename: Seq<char>,
    now: LocalTime,
) -> bool {
    match header_of(encode_utf8(content)) {
        Some(hb) => {
            &&& end_line == HEADER_END_LINE
            &&& exists|t: LocalTime|
                t.valid() && kept_date(field_text(hb, CREATEDAT_FIELD@), now, t)
                    && encode_utf8(text) == #[trigger] new_header(
                    id,
                    language,
                    filename,
                    Some((field_text(hb, CREATEDBY_FIELD@), t)),
                    now,
                )
        },
        None => end_line == 0 && encode_utf8(text) == new_header(id, language, filename, None, now),
    }
}

/// The fields of the header at the top of `content`, if it has one, can be
/// read (each falls between characters).
pub open spec fn content_readable(content: Seq<char>) -> bool {
    match header_of(encode_utf8(content)) {
        Some(hb) => header_readable(hb),
        None => true,
    }
}

/// Whether the fields of the header at the top of `content`, if any, can be read.
pub fn header_fields_readable(content: &str) -> (r: bool)
    ensures
        r == content_readable(content@),
{
    match extract_header(content) {
        Some(h) => header_is_readable(h.as_str()),
        None => true,
    }
}

/// The header was rewritten less than the quiet period before `clock`.
pub open spec fn recent(updates: Map<Seq<char>, u64>, uri: Seq<char>, clock: u64) -> bool {
    updates.dom().contains(uri) && clock - updates[uri] < QUIET_PERIOD_NS
}

/// The text and language of the document `uri` on a save: the saved text
/// when the editor sends it, else the document's content.
pub open spec fn save_content(
    docs: Map<Seq<char>, Document>,
    uri: Seq<char>,
    text: Option<Seq<char>>,
) -> Option<(Seq<char>, Seq<char>)> {
    if docs.dom().contains(uri) {
        Some(
            (
                match text {
                    Some(t) => t,
                    None => docs[uri].content@,
                },
                docs[uri].language_id@,
            ),
        )
    } else {
        None
    }
}

/// Whether `command` is the header command.
pub fn is_header_command(command: &str) -> (r: bool)
    ensures
        r == (command@ == INSERT_HEADER_COMMAND@),
{
    str_eq(command, INSERT_HEADER_COMMAND)
}

/// What the server keeps between requests.
pub struct Session {
    documents: UriMap<Document>,
    updates: UriMap<u64>,
    identity: Identity,
}

impl Session {
    pub closed spec fn wf(&self) -> bool {
        self.documents.wf() && self.updates.wf()
    }

    /// Who writes the headers.
    pub closed spec fn id(&self) -> Identity {
        self.identity
    }

    /// Who writes the headers.
    pub fn identity(&self) -> (r: &Identity)
        ensures
            *r == self.id(),
    {
        &self.identity
    }

    /// The open documents, by URI.
    pub closed spec fn docs(&self) -> Map<Seq<char>, Document> {
        self.documents@
    }

    /// When each document's header was last rewritten (a monotonic clock, in
    /// nanoseconds), by URI.
    pub closed spec fn updates(&self) -> Map<Seq<char>, u64> {
        self.updates@
    }

    /// No document open, no header rewritten, the initial identity.
    pub fn new() -> (r: Self)
        ensures
            r.wf(),
            r.docs() == Map::<Seq<char>, Document>::empty(),
            r.updates() == Map::<Seq<char>, u64>::empty(),
            r.id().username@ == DEFAULT_USERNAME@,
            r.id().email@ == Seq::<char>::empty(),
            !r.id().configured,
    {
        Session { documents: UriMap::new(), updates: UriMap::new(), identity: Identity::initial() }
    }

    /// Takes the identity from the three sources (see `Identity::from_sources`).
    pub fn initialize(&mut self, init_opts: UserConfig, file_cfg: UserConfig, env_cfg: UserConfig)
        requires
            old(self).wf(),
        ensures
            final(self).wf(),
            final(self).docs() == old(self).docs(),
            final(self).updates() == old(self).updates(),
            final(self).id().username@ == resolved_username(init_opts, file_cfg, env_cfg),
            final(self).id().email@ == resolved_email(init_opts, file_cfg, env_cfg),
            final(self).id().configured == (init_opts.username is Some
                || file_cfg.username is Some),
    {
        self.identity = Identity::from_sources(init_opts, file_cfg, env_cfg);
    }

    /// A document was opened with `text` in `language_id`.
    pub fn open(&mut self, uri: &str, text: String, language_id: String)
        requires
            old(self).wf(),
        ensures
            final(self).wf(),
            final(self).docs() == old(self).docs().insert(
                uri@,
                Document { content: text, language_id },
            ),
            final(self).updates() == old(self).updates(),
            final(self).id() == old(self).id(),
    {
        self.documents.insert(uri, Document { content: text, language_id });
    }

    /// A document changed; `changes` are the full texts sent, the last one
    /// counts. Nothing happens for a document that is not open or when no
    /// text was sent.
    pub fn change(&mut self, uri: &str, changes: Vec<String>)
        requires
            old(self).wf(),
        ensures
            final(self).wf(),
            changes@.len() > 0 && old(self).docs().dom().contains(uri@) ==> final(self).docs()
                == old(self).docs().insert(
                uri@,
                Document {
                    content: changes@.last(),
                    language_id: old(self).docs()[uri@].language_id,
                },
            ),
            !(changes@.len() > 0 && old(self).docs().dom().contains(uri@)) ==> final(self).docs()
                == old(self).docs(),
            final(self).updates() == old(self).updates(),
            final(self).id() == old(self).id(),
    {
        let mut changes = changes;
        if let Some(text) = changes.pop() {
            let language_id = match self.documents.get(uri) {
                Some(doc) => doc.language_id.clone(),
                None => {
                    return ;
                },
            };
            self.documents.insert(uri, Document { content: text, language_id });
        }
    }

    /// A document was closed.
    pub fn close(&mut self, uri: &str)
        requires
            old(self).wf(),
        ensures
            final(self).wf(),
            final(self).docs() == old(self).docs().remove(uri@),
            final(self).updates() == old(self).updates(),
            final(self).id() == old(self).id(),
    {
        self.documents.remove(uri);
    }

    /// The open document `uri`, if it is open.
    pub fn document(&self, uri: &str) -> (r: Option<&Document>)
        requires
            self.wf(),
        ensures
            match r {
                Some(d) => self.docs().dom().contains(uri@) && *d == self.docs()[uri@],
                None => !self.docs().dom().contains(uri@),
            },
    {
        self.documents.get(uri)
    }

    /// When the header of `uri` was last rewritten, if it was.
    pub fn last_update(&self, uri: &str) -> (r: Option<u64>)
        requires
            self.wf(),
        ensures
            r == (if self.updates().dom().contains(uri@) {
                Some(self.updates()[uri@])
            } else {
                None
            }),
    {
        match self.updates.get(uri) {
            Some(t) => Some(*t),
            None => None,
        }
    }

    /// Notes that the header of `uri` was rewritten at `clock_ns`.
    pub fn record_update(&mut self, uri: &str, clock_ns: u64)
        requires
            old(self).wf(),
        ensures
            final(self).wf(),
            final(self).updates() == old(self).updates().insert(uri@, clock_ns),
            final(self).docs() == old(self).docs(),
            final(self).id() == old(self).id(),
    {
        self.updates.insert(uri, clock_ns);
    }

    /// Whether the header of `uri` was rewritten less than the quiet period
    /// before `clock_ns`.
    pub fn recently_updated(&self, uri: &str, clock_ns: u64) -> (r: bool)
        requires
            self.wf(),
        ensures
            r == recent(self.updates(), uri@, clock_ns),
    {
        match self.updates.get(uri) {
            Some(last) => clock_ns < *last || clock_ns - *last < QUIET_PERIOD_NS,
            None => false,
        }
    }

    /// Whether the fields of the header that a save of `uri` with `text`
    /// would read can be read.
    pub fn save_is_readable(&self, uri: &str, text: &Option<String>) -> (r: bool)
        requires
            self.wf(),
        ensures
            r == (save_content(self.docs(), uri@, opt_view(*text)) matches Some(c)
                ==> content_readable(c.0)),
    {
        match self.documents.get(uri) {
            Some(doc) => match text {
                Some(t) => header_fields_readable(t.as_str()),
                None => header_fields_readable(doc.content.as_str()),
            },
            None => true,
        }
    }

    /// Whether the fields of the header of the open document `uri`, if any,
    /// can be read.
    pub fn document_is_readable(&self, uri: &str) -> (r: bool)
        requires
            self.wf(),
        ensures
            r == (self.docs().dom().contains(uri@) ==> content_readable(
                self.docs()[uri@].content@,
            )),
    {
        match self.documents.get(uri) {
            Some(doc) => header_fields_readable(doc.content.as_str()),
            None => true,
        }
    }

    /// The header edit of `content` in `language` for the document whose
    /// URI has the path `path`, written at `now`.
    fn edit_for(&self, content: &str, language: &str, path: &str, now: LocalTime) -> (r:
        HeaderEdit)
        requires
            now.valid(),
            content_readable(content@),
        ensures
            is_header_edit(
                r.new_text@,
                r.end_line,
                self.id(),
                content@,
                language@,
                doc_filename(path@),
                now,
            ),
    {
        let filename = filename_from_uri(path);
        match extract_header(content) {
            Some(h) => {
                let info = header_info_at(h.as_str(), now);
                let new_info = self.identity.make_header_info(filename.as_str(), Some(&info), now);
                let new_text = render_header(language, filename.as_str(), &new_info);
                assert(encode_utf8(new_text@) == new_header(
                    self.id(),
                    language@,
                    filename@,
                    Some((field_text(encode_utf8(h@), CREATEDBY_FIELD@), info.created_at)),
                    now,
                ));
                HeaderEdit { end_line: HEADER_END_LINE, new_text }
            },
            None => {
                let new_info = self.identity.make_header_info(filename.as_str(), None, now);
                let new_text = render_header(language, filename.as_str(), &new_info);
                HeaderEdit { end_line: 0, new_text }
            },
        }
    }

    /// The header rewrite on a save of `uri` (whose path is `path`) with the
    /// saved `text`, if any, at wall-clock `now` and monotonic `clock_ns`:
    /// there is one when the document is open, its text starts with a header
    /// and that header was not rewritten in the quiet period. It replaces the
    /// header's lines (see `is_header_edit`).
    pub fn save_edit(
        &self,
        uri: &str,
        path: &str,
        text: Option<String>,
        now: LocalTime,
        clock_ns: u64,
    ) -> (r: Option<String>)
        requires
            self.wf(),
            now.valid(),
            save_content(self.docs(), uri@, opt_view(text)) matches Some(c) ==> content_readable(
                c.0,
            ),
        ensures
            r is Some <==> ({
                &&& save_content(self.docs(), uri@, opt_view(text)) matches Some(c)
                &&& header_of(encode_utf8(c.0)) is Some
                &&& !recent(self.updates(), uri@, clock_ns)
            }),
            r matches Some(h) ==> ({
                let c = save_content(self.docs(), uri@, opt_view(text))->0;
                is_header_edit(
                    h@,
                    HEADER_END_LINE,
                    self.id(),
                    c.0,
                    c.1,
                    doc_filename(path@),
                    now,
                )
            }),
    {
        let (content, language) = match self.documents.get(uri) {
            Some(doc) => {
                let content = match text {
                    Some(t) => t,
                    None => doc.content.clone(),
                };
                (content, doc.language_id.clone())
            },
            None => {
                return None;
            },
        };
        if extract_header(content.as_str()).is_none() {
            return None;
        }
        if self.recently_updated(uri, clock_ns) {
            return None;
        }
        let edit = self.edit_for(content.as_str(), language.as_str(), path, now);
        Some(edit.new_text)
    }

    /// The header edit offered for `uri` (whose path is `path`) at `now`:
    /// none for a document that is not open; "Update 42 Header" replacing the
    /// header of a document that has one, "Insert 42 Header" inserting one
    /// otherwise (see `is_header_edit`).
    pub fn code_action(&self, uri: &str, path: &str, now: LocalTime) -> (r: Option<HeaderAction>)
        requires
            self.wf(),
            now.valid(),
            self.docs().dom().contains(uri@) ==> content_readable(self.docs()[uri@].content@),
        ensures
            r is Some <==> self.docs().dom().contains(uri@),
            r matches Some(a) ==> ({
                let d = self.docs()[uri@];
                &&& a.title@ == (if header_of(encode_utf8(d.content@)) is Some {
                    UPDATE_TITLE@
                } else {
                    INSERT_TITLE@
                })
                &&& is_header_edit(
                    a.edit.new_text@,
                    a.edit.end_line,
                    self.id(),
                    d.content@,
                    d.language_id@,
                    doc_filename(path@),
                    now,
                )
            }),
    {
        match self.documents.get(uri) {
            Some(doc) => {
                let has_header = extract_header(doc.content.as_str()).is_some();
                let title = if has_header {
                    String::from_str(UPDATE_TITLE)
                } else {
                    String::from_str(INSERT_TITLE)
                };
                let edit = self.edit_for(
                    doc.content.as_str(),
                    doc.language_id.as_str(),
                    path,
                    now,
                );
                Some(HeaderAction { title, edit })
            },
            None => None,
        }
    }

    /// What the command `command` with the first argument `argument` does at
    /// `now`: for the header command whose argument parses as the URI of an
    /// open document (see `command_target`), the header edit of that document
    /// (see `is_header_edit`), or, where that document's header cannot be
    /// read, `UnreadableHeader`; nothing otherwise.
    pub fn execute_command(&self, command: &str, argument: Option<String>, now: LocalTime) -> (r:
        CommandOutcome)
        requires
            self.wf(),
            now.valid(),
        ensures
            match command_target(command@, opt_view(argument)) {
                Some(u) => if self.docs().dom().contains(u.0) {
                    if content_readable(self.docs()[u.0].content@) {
                        r matches CommandOutcome::Edit { key, edit, .. } && key@ == u.0
                            && is_header_edit(
                            edit.new_text@,
                            edit.end_line,
                            self.id(),
                            self.docs()[u.0].content@,
                            self.docs()[u.0].language_id@,
                            doc_filename(u.1),
                            now,
                        )
                    } else {
                        r is UnreadableHeader
                    }
                } else {
                    r is Nothing
                },
                None => r is Nothing,
            },
    {
        if !is_header_command(command) {
            return CommandOutcome::Nothing;
        }
        let text = match argument {
            Some(a) => a,
            None => {
                return CommandOutcome::Nothing;
            },
        };
        let (uri, key, path) = match parse_uri(text.as_str()) {
            Some(p) => p,
            None => {
                return CommandOutcome::Nothing;
            },
        };
        match self.documents.get(key.as_str()) {
            Some(doc) => {
                if !header_fields_readable(doc.content.as_str()) {
                    return CommandOutcome::UnreadableHeader;
                }
                let edit = self.edit_for(
                    doc.content.as_str(),
                    doc.language_id.as_str(),
                    path.as_str(),
                    now,
                );
                CommandOutcome::Edit { uri, key, edit }
            },
            None => CommandOutcome::Nothing,
        }
    }
}

/// Rewriting a header keeps its creator: the header written over the one at
/// the top of `content` (with whatever creation date) is found again at the top
/// of the new text, whatever follows it, and its creator field reads as the
/// old header's did. The new header also shows the file name, author, updater,
/// update date and creation date that were written, each as far as it fits
/// its field (dates: for the years 0 to 9999). This
/// holds when the file name, the user name and the address hold no line break.
pub proof fn lemma_rewrite_keeps_creator(
    id: Identity,
    content: Seq<char>,
    language: Seq<char>,
    filename: Seq<char>,
    created_at: LocalTime,
    now: LocalTime,
    rest: Seq<u8>,
)
    requires
        header_of(encode_utf8(content)) is Some,
        content_readable(content),
        created_at.valid(),
        now.valid(),
        no_newline(filename),
        no_newline(id.username@),
        no_newline(id.mail()),
    ensures
        ({
            let creator = field_text(header_of(encode_utf8(content))->0, CREATEDBY_FIELD@);
            let h = new_header(id, language, filename, Some((creator, created_at)), now);
            let author = author_text(id.username@, id.mail());
            &&& header_of(h + rest) is Some
            &&& field_text(header_of(h + rest)->0, CREATEDBY_FIELD@) == creator
            &&& fits_field(filename, field_width(FILENAME_FIELD@)) ==> field_text(
                header_of(h + rest)->0,
                FILENAME_FIELD@,
            ) == filename
            &&& fits_field(author, field_width(AUTHOR_FIELD@)) ==> field_text(
                header_of(h + rest)->0,
                AUTHOR_FIELD@,
            ) == author
            &&& fits_field(id.username@, field_width(UPDATEDBY_FIELD@)) ==> field_text(
                header_of(h + rest)->0,
                UPDATEDBY_FIELD@,
            ) == id.username@
            &&& 0 <= now.year <= 9999 ==> field_text(header_of(h + rest)->0, UPDATEDAT_FIELD@)
                == date_text(now)
            &&& 0 <= created_at.year <= 9999 ==> field_text(
                header_of(h + rest)->0,
                CREATEDAT_FIELD@,
            ) == date_text(created_at)
        }),
{
    let hb = header_of(encode_utf8(content))->0;
    let creator = field_text(hb, CREATEDBY_FIELD@);
    lemma_read_field_fits(content, CREATEDBY_FIELD@);
    let u = id.username@;
    let m = id.mail();
    lemma_author_no_newline(u, m);
    let f = updated_fields(u, m, filename, Some((creator, created_at)), now);
    lemma_rendered_header_reads_back(style_for(unicode_lowercase(language), filename), f, rest);
}

proof fn lemma_author_no_newline(u: Seq<char>, m: Seq<char>)
    requires
        no_newline(u),
        no_newline(m),
    ensures
        no_newline(author_text(u, m)),
{
    let author = author_text(u, m);
    assert forall|i: int| 0 <= i < author.len() implies #[trigger] author[i] != '\n' by {
        if i < u.len() {
            assert(author[i] == u[i]);
        } else if i < u.len() + 2 {
        } else if i < u.len() + 2 + m.len() {
            assert(author[i] == m[i - u.len() - 2]);
        }
    }
}

/// After a header edit the document starts with a header, whatever follows
/// the edited lines. Its creator is the creator of the header it replaced, or,
/// when the edit inserts a header, the user (as far as the login fits its
/// field). A replaced header's creation date, written as headers write dates,
/// is shown again, unless the local time zone makes it ambiguous (then the
/// current time is). This holds when the file name, the user name and the
/// address hold no line break.
pub proof fn lemma_header_edit_reads_back(
    text: Seq<char>,
    end_line: u32,
    id: Identity,
    content: Seq<char>,
    language: Seq<char>,
    filename: Seq<char>,
    now: LocalTime,
    rest: Seq<u8>,
)
    requires
        is_header_edit(text, end_line, id, content, language, filename, now),
        content_readable(content),
        now.valid(),
        no_newline(filename),
        no_newline(id.username@),
        no_newline(id.mail()),
    ensures
        header_of(encode_utf8(text) + rest) is Some,
        header_of(encode_utf8(content)) matches Some(hb) ==> field_text(
            header_of(encode_utf8(text) + rest)->0,
            CREATEDBY_FIELD@,
        ) == field_text(hb, CREATEDBY_FIELD@),
        header_of(encode_utf8(content)) is None && fits_field(
            id.username@,
            field_width(CREATEDBY_FIELD@),
        ) ==> field_text(header_of(encode_utf8(text) + rest)->0, CREATEDBY_FIELD@)
            == id.username@,
        header_of(encode_utf8(content)) matches Some(hb) ==> forall|d: LocalTime|
            #![trigger date_text(d)]
            d.valid() && 0 <= d.year <= 9999 && 0 <= now.year <= 9999 && trim_chars(
                field_text(hb, CREATEDAT_FIELD@),
            ) == date_text(d) ==> ({
                let shown = field_text(header_of(encode_utf8(text) + rest)->0, CREATEDAT_FIELD@);
                shown == date_text(d) || shown == date_text(now)
            }),
{
    match header_of(encode_utf8(content)) {
        Some(hb) => {
            let creator = field_text(hb, CREATEDBY_FIELD@);
            let t = choose|t: LocalTime|
                t.valid() && kept_date(field_text(hb, CREATEDAT_FIELD@), now, t)
                    && encode_utf8(text) == #[trigger] new_header(
                    id,
                    language,
                    filename,
                    Some((creator, t)),
                    now,
                );
            lemma_rewrite_keeps_creator(id, content, language, filename, t, now, rest);
            assert forall|d: LocalTime|
                #![trigger date_text(d)]
                d.valid() && 0 <= d.year <= 9999 && 0 <= now.year <= 9999 && trim_chars(
                    field_text(hb, CREATEDAT_FIELD@),
                ) == date_text(d) implies ({
                let shown = field_text(header_of(encode_utf8(text) + rest)->0, CREATEDAT_FIELD@);
                shown == date_text(d) || shown == date_text(now)
            }) by {
                assert(date_text(whole_seconds(d)) == date_text(d));
            }
        },
        None => {
            lemma_author_no_newline(id.username@, id.mail());
            let f = updated_fields(id.username@, id.mail(), filename, None, now);
            lemma_rendered_header_reads_back(
                style_for(unicode_lowercase(language), filename),
                f,
                rest,
            );
        },
    }
}

/// Two header edits of the same document by the same user at the same time
/// (a code action and the header command, say) are one and the same edit,
/// unless the replaced header's creation date parses and so the local time
/// zone decides whether it is kept (see `kept_date`): inserting a header,
/// or rewriting one whose creation date does not parse, gives a single text.
pub proof fn lemma_header_edit_is_determined(
    text1: Seq<char>,
    end1: u32,
    text2: Seq<char>,
    end2: u32,
    id: Identity,
    content: Seq<char>,
    language: Seq<char>,
    filename: Seq<char>,
    now: LocalTime,
)
    requires
        is_header_edit(text1, end1, id, content, language, filename, now),
        is_header_edit(text2, end2, id, content, language, filename, now),
        header_of(encode_utf8(content)) matches Some(hb) ==> chrono_parse(
            trim_chars(field_text(hb, CREATEDAT_FIELD@)),
            DATE_FORMAT@,
        ) is None,
    ensures
        text1 == text2,
        end1 == end2,
{
    encode_utf8_decode_utf8(text1);
    encode_utf8_decode_utf8(text2);
}

/// A save within the quiet period after a header rewrite of the same document
/// leaves the header alone; once the period is over, saves rewrite it again.
pub proof fn lemma_quiet_period(updates: Map<Seq<char>, u64>, uri: Seq<char>, at: u64, later: u64)
    requires
        at <= later,
    ensures
        later - at < QUIET_PERIOD_NS ==> recent(updates.insert(uri, at), uri, later),
        later - at >= QUIET_PERIOD_NS ==> !recent(updates.insert(uri, at), uri, later),
{
}

/// A rewrite recorded for one document does not quiet the saves of another.
pub proof fn lemma_quiet_period_is_per_document(
    updates: Map<Seq<char>, u64>,
    uri: Seq<char>,
    other: Seq<char>,
    at: u64,
    clock: u64,
)
    requires
        uri != other,
    ensures
        recent(updates.insert(uri, at), other, clock) == recent(updates, other, clock),
{
}

} // verus!
