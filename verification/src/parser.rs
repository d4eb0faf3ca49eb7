//! Extraction of the tracks of a KML document, one XML event at a time.
//!
//! The XML events come from `quick_xml`, read one by one (`xml_source`); what they mean for the tracks is a
//! state machine (`spec_event_step`) that keeps the stack of enclosing folders
//! and the fields of the current `Placemark`.
use vstd::prelude::*;
use crate::xml_source::{xml_event_at, xml_offset_after, XmlSource};
use crate::coordinates::{parse_coordinates, spec_coordinates};
use crate::datetime::{chrono_parse_datetime, parse_datetime, DateTime, TIME_FORMAT};
use crate::metadata::{TrackMetadata, TrackView};
use crate::path::{extract_categories, spec_extract_categories, views};
use crate::time_patterns::{
    end_time_pattern, find_end_time, find_start_time, regex_first_capture, start_time_pattern,
};
use crate::coordinates::{lower_chars, lower_text};
use crate::error::{AnalyzerError, Result};
use crate::kmz::{extract_kml_from_kmz, spec_kml_of_archive, zip_open_error, NO_KML_MESSAGE};
use crate::paths::{path_extension, path_file_stem, std_path_extension, std_path_file_stem};
use crate::text::{concat_string, has_literal_at, to_chars};

verus! {

/// One event of an XML document, with the names and texts decoded as UTF-8
/// (invalid sequences replaced by U+FFFD).
#[derive(Debug, Clone)]
pub enum XmlEvent {
    /// A start tag, by its name.
    Start(String),
    /// An end tag, by its name.
    End(String),
    /// Character data between tags, as written (not unescaped).
    Text(String),
    /// The content of a `CDATA` section.
    CData(String),
    /// The end of the document.
    Eof,
    /// An error of the XML syntax, with the reader's message.
    Error(String),
    /// Any other event (empty elements, comments, declarations, entity
    /// references, ...).
    Other,
}

/// The content of an XML event.
pub enum XmlEventView {
    Start(Seq<char>),
    End(Seq<char>),
    Text(Seq<char>),
    CData(Seq<char>),
    Eof,
    Error(Seq<char>),
    Other,
}

impl View for XmlEvent {
    type V = XmlEventView;

    open spec fn view(&self) -> XmlEventView {
        match self {
            XmlEvent::Start(s) => XmlEventView::Start(s@),
            XmlEvent::End(s) => XmlEventView::End(s@),
            XmlEvent::Text(s) => XmlEventView::Text(s@),
            XmlEvent::CData(s) => XmlEventView::CData(s@),
            XmlEvent::Eof => XmlEventView::Eof,
            XmlEvent::Error(m) => XmlEventView::Error(m@),
            XmlEvent::Other => XmlEventView::Other,
        }
    }
}

impl XmlEvent {
    /// Whether the event ends the reading: the end of the document or an
    /// error.
    pub fn ends_reading(&self) -> (r: bool)
        ensures
            r == is_terminal(self@),
    {
        match self {
            XmlEvent::Eof => true,
            XmlEvent::Error(_) => true,
            _ => false,
        }
    }
}

/// The text field of a `Placemark` (or of a folder) that character data
/// goes to.
#[derive(Debug, Clone, Copy, PartialEq, Eq, Structural)]
pub enum ActiveTextField {
    /// No field: character data is dropped.
    Inactive,
    /// The name of the placemark.
    Name,
    /// The description of the placemark.
    Description,
    /// The coordinates of the placemark.
    Coordinates,
    /// The name of the innermost folder.
    FolderName,
}

/// The state of the parser within the current placemark.
pub struct ParserState {
    pub in_placemark: bool,
    pub active_field: ActiveTextField,
    pub current_name: String,
    pub current_description: String,
    pub current_coordinates_str: String,
}

/// A track with the path of folders that encloses it.
pub type Placemark = (Vec<String>, TrackMetadata);

/// The content of a track and its folder path.
pub type PlacemarkView = (Seq<Seq<char>>, TrackView);

/// The content of a list of tracks.
pub open spec fn results_view(r: Seq<Placemark>) -> Seq<PlacemarkView> {
    r.map_values(|p: Placemark| (views(p.0@), p.1@))
}

/// The whole state of the parser, as values.
pub struct ParserModel {
    pub in_placemark: bool,
    pub active: ActiveTextField,
    pub name: Seq<char>,
    pub description: Seq<char>,
    pub coordinates: Seq<char>,
    pub folders: Seq<Seq<char>>,
    pub results: Seq<PlacemarkView>,
}

/// The state before the first event.
pub open spec fn initial_model() -> ParserModel {
    ParserModel {
        in_placemark: false,
        active: ActiveTextField::Inactive,
        name: Seq::empty(),
        description: Seq::empty(),
        coordinates: Seq::empty(),
        folders: Seq::empty(),
        results: Seq::empty(),
    }
}

/// The state of the parser, as values.
pub open spec fn model_of(
    state: &ParserState,
    folders: Seq<String>,
    results: Seq<Placemark>,
) -> ParserModel {
    ParserModel {
        in_placemark: state.in_placemark,
        active: state.active_field,
        name: state.current_name@,
        description: state.current_description@,
        coordinates: state.current_coordinates_str@,
        folders: views(folders),
        results: results_view(results),
    }
}

/// The start and end times of two captured texts, read by `chrono` in
/// `TIME_FORMAT`, when both were captured and both read.
pub open spec fn spec_times_from(start: Option<Seq<char>>, end: Option<Seq<char>>) -> Option<
    (DateTime, DateTime),
> {
    match (start, end) {
        (Some(a), Some(b)) => match (
            chrono_parse_datetime(a, TIME_FORMAT@),
            chrono_parse_datetime(b, TIME_FORMAT@),
        ) {
            (Some(s), Some(e)) => Some((s, e)),
            _ => None,
        },
        _ => None,
    }
}

/// The start and end times that a description gives: the texts that the
/// start and end patterns capture, read by `chrono` in `TIME_FORMAT`.
pub open spec fn spec_extract_times(description: Seq<char>) -> Option<(DateTime, DateTime)> {
    spec_times_from(
        regex_first_capture(start_time_pattern(), description),
        regex_first_capture(end_time_pattern(), description),
    )
}

/// A placemark that ends: it becomes a track when its description gives
/// both times.
pub open spec fn spec_finalize(m: ParserModel, root_name: Seq<char>) -> ParserModel {
    let m2 = ParserModel { in_placemark: false, ..m };
    match spec_extract_times(m.description) {
        Some((s, e)) => {
            let (category, activity, year, month) = spec_extract_categories(m.folders, root_name);
            let track = TrackView {
                name: m.name,
                start_time: s,
                end_time: e,
                coordinates: spec_coordinates(m.coordinates),
                category,
                activity,
                year,
                month,
            };
            ParserModel { results: m.results.push((m.folders, track)), ..m2 }
        },
        None => m2,
    }
}

/// Whether the innermost folder has no name yet.
pub open spec fn at_unnamed_folder(folders: Seq<Seq<char>>) -> bool {
    folders.len() > 0 && folders.last().len() == 0
}

/// A start tag.
pub open spec fn spec_start_tag(m: ParserModel, tag: Seq<char>) -> ParserModel {
    if tag == "Folder"@ {
        ParserModel { folders: m.folders.push(Seq::empty()), ..m }
    } else if tag == "Placemark"@ {
        ParserModel {
            in_placemark: true,
            active: ActiveTextField::Inactive,
            name: Seq::empty(),
            description: Seq::empty(),
            coordinates: Seq::empty(),
            ..m
        }
    } else if m.in_placemark && tag == "name"@ {
        ParserModel { active: ActiveTextField::Name, ..m }
    } else if m.in_placemark && tag == "description"@ {
        ParserModel { active: ActiveTextField::Description, ..m }
    } else if m.in_placemark && tag == "coordinates"@ {
        ParserModel { active: ActiveTextField::Coordinates, ..m }
    } else if !m.in_placemark && tag == "name"@ && at_unnamed_folder(m.folders) {
        ParserModel { active: ActiveTextField::FolderName, ..m }
    } else {
        m
    }
}

/// An end tag.
pub open spec fn spec_end_tag(m: ParserModel, tag: Seq<char>, root_name: Seq<char>) -> ParserModel {
    if tag == "Folder"@ {
        if m.folders.len() > 0 {
            ParserModel { folders: m.folders.drop_last(), ..m }
        } else {
            m
        }
    } else if tag == "Placemark"@ {
        spec_finalize(m, root_name)
    } else if tag == "name"@ || tag == "description"@ || tag == "coordinates"@ {
        ParserModel { active: ActiveTextField::Inactive, ..m }
    } else {
        m
    }
}

/// Character data, which goes to the active field.
pub open spec fn spec_append_text(m: ParserModel, t: Seq<char>) -> ParserModel {
    match m.active {
        ActiveTextField::Name => ParserModel { name: m.name + t, ..m },
        ActiveTextField::Description => ParserModel { description: m.description + t, ..m },
        ActiveTextField::Coordinates => ParserModel { coordinates: m.coordinates + t, ..m },
        ActiveTextField::FolderName => if m.folders.len() > 0 {
            ParserModel {
                folders: m.folders.update(m.folders.len() - 1, m.folders.last() + t),
                ..m
            }
        } else {
            m
        },
        ActiveTextField::Inactive => m,
    }
}

/// The effect of one event on the parser.
pub open spec fn spec_event_step(m: ParserModel, e: XmlEventView, root_name: Seq<char>) -> ParserModel {
    match e {
        XmlEventView::Start(tag) => spec_start_tag(m, tag),
        XmlEventView::End(tag) => spec_end_tag(m, tag, root_name),
        XmlEventView::Text(t) => spec_append_text(m, t),
        XmlEventView::CData(t) => if m.active == ActiveTextField::Description {
            ParserModel { description: m.description + t, ..m }
        } else {
            m
        },
        _ => m,
    }
}

/// The state after a sequence of events.
pub open spec fn spec_run(events: Seq<XmlEventView>, root_name: Seq<char>) -> ParserModel
    decreases events.len(),
{
    if events.len() == 0 {
        initial_model()
    } else {
        spec_event_step(spec_run(events.drop_last(), root_name), events.last(), root_name)
    }
}

/// Whether an event ends the reading: the end of the document or an error.
pub open spec fn is_terminal(e: XmlEventView) -> bool {
    e is Eof || e is Error
}

/// The number of events before the first one that ends the reading.
pub open spec fn events_before_end(events: Seq<XmlEventView>, i: int) -> int
    decreases events.len() - i,
{
    if i < 0 || i >= events.len() {
        events.len() as int
    } else if is_terminal(events[i]) {
        i
    } else {
        events_before_end(events, i + 1)
    }
}

/// What a sequence of events gives: the reader's message where the first
/// event that ends the reading is an error, else the tracks of the events
/// before the end of the document.
pub open spec fn spec_parse_outcome(events: Seq<XmlEventView>, root_name: Seq<char>) -> std::result::Result<
    Seq<PlacemarkView>,
    Seq<char>,
> {
    let n = events_before_end(events, 0);
    if 0 <= n < events.len() && events[n] is Error {
        match events[n] {
            XmlEventView::Error(m) => Err(m),
            _ => Err(Seq::empty()),
        }
    } else {
        Ok(spec_run(events.take(n), root_name).results)
    }
}

/// Whether a result is the outcome: the tracks, or a `ParsingError` with the
/// reader's message.
pub open spec fn matches_outcome(
    r: std::result::Result<Vec<Placemark>, AnalyzerError>,
    o: std::result::Result<Seq<PlacemarkView>, Seq<char>>,
) -> bool {
    match r {
        Ok(v) => o == std::result::Result::<Seq<PlacemarkView>, Seq<char>>::Ok(results_view(v@)),
        Err(AnalyzerError::ParsingError(m)) => o == std::result::Result::<Seq<PlacemarkView>, Seq<char>>::Err(m@),
        Err(_) => false,
    }
}

/// The tag names that the parser reads are distinct texts.
proof fn lemma_tag_literals()
    ensures
        "Folder"@ != "Placemark"@,
        "Folder"@ != "name"@,
        "Folder"@ != "description"@,
        "Folder"@ != "coordinates"@,
        "Placemark"@ != "name"@,
        "Placemark"@ != "description"@,
        "Placemark"@ != "coordinates"@,
        "name"@ != "description"@,
        "name"@ != "coordinates"@,
        "description"@ != "coordinates"@,
{
    reveal_strlit("Folder");
    reveal_strlit("Placemark");
    reveal_strlit("name");
    reveal_strlit("description");
    reveal_strlit("coordinates");
    assert("Folder"@.len() == 6);
    assert("Placemark"@.len() == 9);
    assert("name"@.len() == 4);
    assert("description"@.len() == 11);
    assert("coordinates"@.len() == 11);
    assert("description"@[0] == 'd');
    assert("coordinates"@[0] == 'c');
}

impl ParserState {
    /// Clears the fields of the placemark.
    fn reset_placemark(&mut self)
        ensures
            final(self).in_placemark == old(self).in_placemark,
            final(self).active_field == ActiveTextField::Inactive,
            final(self).current_name@ == Seq::<char>::empty(),
            final(self).current_description@ == Seq::<char>::empty(),
            final(self).current_coordinates_str@ == Seq::<char>::empty(),
    {
        self.current_name = String::new();
        self.current_description = String::new();
        self.current_coordinates_str = String::new();
        self.active_field = ActiveTextField::Inactive;
    }

    /// Enters a placemark.
    fn enter_placemark(&mut self)
        ensures
            final(self).in_placemark,
            final(self).active_field == ActiveTextField::Inactive,
            final(self).current_name@ == Seq::<char>::empty(),
            final(self).current_description@ == Seq::<char>::empty(),
            final(self).current_coordinates_str@ == Seq::<char>::empty(),
    {
        self.in_placemark = true;
        self.reset_placemark();
    }

    /// Opens `name`, `description` or `coordinates`.
    fn open_content_tag(&mut self, tag_name: &str, folder_stack: &Vec<String>)
        requires
            tag_name@ == "name"@ || tag_name@ == "description"@ || tag_name@ == "coordinates"@,
        ensures
            model_of(final(self), folder_stack@, Seq::empty()) == spec_start_tag(
                model_of(old(self), folder_stack@, Seq::empty()),
                tag_name@,
            ),
    {
        proof {
            lemma_tag_literals();
        }
        if self.in_placemark {
            self.open_placemark_tag(tag_name);
        } else if crate::path::str_equal(tag_name, "name") && self.is_at_unnamed_folder(
            folder_stack,
        ) {
            self.active_field = ActiveTextField::FolderName;
        }
    }

    /// Makes `name`, `description` or `coordinates` of the placemark active.
    fn open_placemark_tag(&mut self, tag_name: &str)
        ensures
            final(self).in_placemark == old(self).in_placemark,
            final(self).current_name == old(self).current_name,
            final(self).current_description == old(self).current_description,
            final(self).current_coordinates_str == old(self).current_coordinates_str,
            final(self).active_field == (if tag_name@ == "name"@ {
                ActiveTextField::Name
            } else if tag_name@ == "description"@ {
                ActiveTextField::Description
            } else if tag_name@ == "coordinates"@ {
                ActiveTextField::Coordinates
            } else {
                old(self).active_field
            }),
    {
        if crate::path::str_equal(tag_name, "name") {
            self.active_field = ActiveTextField::Name;
        } else if crate::path::str_equal(tag_name, "description") {
            self.active_field = ActiveTextField::Description;
        } else if crate::path::str_equal(tag_name, "coordinates") {
            self.active_field = ActiveTextField::Coordinates;
        }
    }

    /// Whether the innermost folder has no name yet.
    fn is_at_unnamed_folder(&self, folder_stack: &Vec<String>) -> (r: bool)
        ensures
            r == at_unnamed_folder(views(folder_stack@)),
    {
        let n = folder_stack.len();
        n > 0 && folder_stack[n - 1].unicode_len() == 0
    }

    /// Closes the active field.
    fn close_content_tag(&mut self)
        ensures
            final(self).active_field == ActiveTextField::Inactive,
            final(self).in_placemark == old(self).in_placemark,
            final(self).current_name == old(self).current_name,
            final(self).current_description == old(self).current_description,
            final(self).current_coordinates_str == old(self).current_coordinates_str,
    {
        self.active_field = ActiveTextField::Inactive;
    }

    /// Appends character data to the active field.
    fn append_text(&mut self, content: &str, folder_stack: &mut Vec<String>)
        ensures
            model_of(final(self), final(folder_stack)@, Seq::empty()) == spec_append_text(
                model_of(old(self), old(folder_stack)@, Seq::empty()),
                content@,
            ),
    {
        match self.active_field {
            ActiveTextField::Name => self.current_name.append(content),
            ActiveTextField::Description => self.current_description.append(content),
            ActiveTextField::Coordinates => self.current_coordinates_str.append(content),
            ActiveTextField::FolderName => append_to_folder_name(folder_stack, content),
            ActiveTextField::Inactive => {},
        }
    }

    /// Appends the content of a `CDATA` section to the description, when it
    /// is active.
    fn handle_cdata(&mut self, content: &str)
        ensures
            final(self).in_placemark == old(self).in_placemark,
            final(self).active_field == old(self).active_field,
            final(self).current_name == old(self).current_name,
            final(self).current_coordinates_str == old(self).current_coordinates_str,
            final(self).current_description@ == (if old(self).active_field
                == ActiveTextField::Description {
                old(self).current_description@ + content@
            } else {
                old(self).current_description@
            }),
    {
        if self.active_field == ActiveTextField::Description {
            self.current_description.append(content);
        }
    }
}

/// Appends text to the name of the innermost folder.
fn append_to_folder_name(folder_stack: &mut Vec<String>, content: &str)
    ensures
        views(final(folder_stack)@) == (if old(folder_stack)@.len() > 0 {
            views(old(folder_stack)@).update(
                old(folder_stack)@.len() - 1,
                views(old(folder_stack)@).last() + content@,
            )
        } else {
            views(old(folder_stack)@)
        }),
{
    let n = folder_stack.len();
    if n > 0 {
        let ghost before = folder_stack@;
        let last = concat_string(&folder_stack[n - 1], content);
        folder_stack.set(n - 1, last);
        assert(views(folder_stack@) =~= views(before).update(n - 1, views(before).last() + content@));
    }
}

/// The start and end times of a description, when it gives both.
pub fn extract_times(description: &str) -> (r: Option<(DateTime, DateTime)>)
    ensures
        r == spec_extract_times(description@),
{
    let start_match = find_start_time(description);
    let end_match = find_end_time(description);
    times_from_captures(start_match, end_match)
}

/// The option of the text of an optional string.
pub open spec fn opt_view(s: Option<String>) -> Option<Seq<char>> {
    match s {
        Some(t) => Some(t@),
        None => None,
    }
}

/// The start and end times of the texts that the start and end patterns
/// captured: both read in `TIME_FORMAT`, or `None`.
pub fn times_from_captures(start_match: Option<String>, end_match: Option<String>) -> (r: Option<
    (DateTime, DateTime),
>)
    ensures
        r == spec_times_from(opt_view(start_match), opt_view(end_match)),
{
    match (start_match, end_match) {
        (Some(start_str), Some(end_str)) => {
            let start = parse_datetime(start_str.as_str(), TIME_FORMAT);
            let end = parse_datetime(end_str.as_str(), TIME_FORMAT);
            match (start, end) {
                (Some(s), Some(e)) => Some((s, e)),
                _ => None,
            }
        },
        _ => None,
    }
}

/// A copy of a list of strings.
fn clone_strings(v: &Vec<String>) -> (r: Vec<String>)
    ensures
        views(r@) == views(v@),
{
    let mut out: Vec<String> = Vec::new();
    let n = v.len();
    let mut i: usize = 0;
    while i < n
        invariant
            n == v@.len(),
            i <= n,
            views(out@) =~= views(v@).take(i as int),
        decreases n - i,
    {
        let ghost before = out@;
        out.push(v[i].clone());
        assert(views(out@) =~= views(before).push(v@[i as int]@));
        i = i + 1;
    }
    assert(views(v@).take(n as int) =~= views(v@));
    out
}

/// Ends the current placemark: when its description gives both times, the
/// track is added with its folder path and the labels of that path.
fn finalize_placemark(
    state: &mut ParserState,
    folder_stack: &Vec<String>,
    results: &mut Vec<Placemark>,
    root_name: &str,
)
    ensures
        model_of(final(state), folder_stack@, final(results)@) == spec_finalize(
            model_of(old(state), folder_stack@, old(results)@),
            root_name@,
        ),
{
    state.in_placemark = false;
    match extract_times(state.current_description.as_str()) {
        Some((start_time, end_time)) => {
            let coordinates = parse_coordinates(state.current_coordinates_str.as_str());
            let (category, activity, year, month) = extract_categories(
                folder_stack.as_slice(),
                root_name,
            );
            let metadata = TrackMetadata {
                name: state.current_name.clone(),
                start_time,
                end_time,
                coordinates,
                category,
                activity,
                year,
                month,
            };
            let path = clone_strings(folder_stack);
            let ghost before = results@;
            let ghost entry = (views(path@), metadata@);
            results.push((path, metadata));
            assert(results_view(results@) =~= results_view(before).push(entry));
        },
        None => {},
    }
}

/// A start tag: a folder opens, a placemark begins, or a text field becomes
/// active.
fn handle_start_tag(tag_name: &str, folder_stack: &mut Vec<String>, state: &mut ParserState)
    ensures
        model_of(final(state), final(folder_stack)@, Seq::empty()) == spec_start_tag(
            model_of(old(state), old(folder_stack)@, Seq::empty()),
            tag_name@,
        ),
{
    proof {
        lemma_tag_literals();
    }
    if crate::path::str_equal(tag_name, "Folder") {
        let ghost before = folder_stack@;
        folder_stack.push(String::new());
        assert(views(folder_stack@) =~= views(before).push(Seq::empty()));
    } else if crate::path::str_equal(tag_name, "Placemark") {
        state.enter_placemark();
    } else if crate::path::str_equal(tag_name, "name") || crate::path::str_equal(
        tag_name,
        "description",
    ) || crate::path::str_equal(tag_name, "coordinates") {
        state.open_content_tag(tag_name, folder_stack);
    }
}

/// An end tag: a folder closes, a placemark ends, or the active field closes.
fn handle_end_tag(
    tag_name: &str,
    folder_stack: &mut Vec<String>,
    state: &mut ParserState,
    results: &mut Vec<Placemark>,
    root_name: &str,
)
    ensures
        model_of(final(state), final(folder_stack)@, final(results)@) == spec_end_tag(
            model_of(old(state), old(folder_stack)@, old(results)@),
            tag_name@,
            root_name@,
        ),
{
    proof {
        lemma_tag_literals();
    }
    if crate::path::str_equal(tag_name, "Folder") {
        let ghost before = folder_stack@;
        if folder_stack.len() > 0 {
            folder_stack.pop();
            assert(views(folder_stack@) =~= views(before).drop_last());
        }
    } else if crate::path::str_equal(tag_name, "Placemark") {
        finalize_placemark(state, folder_stack, results, root_name);
    } else if crate::path::str_equal(tag_name, "name") || crate::path::str_equal(
        tag_name,
        "description",
    ) || crate::path::str_equal(tag_name, "coordinates") {
        state.close_content_tag();
    }
}

/// The effect of one XML event on the parser.
pub fn process_event(
    event: &XmlEvent,
    folder_stack: &mut Vec<String>,
    state: &mut ParserState,
    results: &mut Vec<Placemark>,
    root_name: &str,
)
    ensures
        model_of(final(state), final(folder_stack)@, final(results)@) == spec_event_step(
            model_of(old(state), old(folder_stack)@, old(results)@),
            event@,
            root_name@,
        ),
{
    match event {
        XmlEvent::Start(tag) => {
            handle_start_tag(tag.as_str(), folder_stack, state);
        },
        XmlEvent::End(tag) => {
            handle_end_tag(tag.as_str(), folder_stack, state, results, root_name);
        },
        XmlEvent::Text(content) => {
            state.append_text(content.as_str(), folder_stack);
        },
        XmlEvent::CData(content) => {
            state.handle_cdata(content.as_str());
        },
        _ => {},
    }
}

/// The parser before the first event.
fn new_state() -> (r: ParserState)
    ensures
        model_of(&r, Seq::empty(), Seq::empty()) == initial_model(),
{
    let r = ParserState {
        in_placemark: false,
        active_field: ActiveTextField::Inactive,
        current_name: String::new(),
        current_description: String::new(),
        current_coordinates_str: String::new(),
    };
    assert(views(Seq::<String>::empty()) =~= Seq::<Seq<char>>::empty());
    assert(results_view(Seq::<Placemark>::empty()) =~= Seq::<PlacemarkView>::empty());
    r
}

/// The content of a list of events.
pub open spec fn events_view(events: Seq<XmlEvent>) -> Seq<XmlEventView> {
    events.map_values(|e: XmlEvent| e@)
}

/// The tracks of a sequence of XML events, read up to the first end of
/// document or error; an error ends the reading with a `ParsingError` that
/// holds the reader's message. `root_name` is the name of the file without
/// its extension, which the folder labels leave out.
pub fn parse_events(events: &Vec<XmlEvent>, root_name: &str) -> (r: Result<Vec<Placemark>>)
    ensures
        matches_outcome(r, spec_parse_outcome(events_view(events@), root_name@)),
{
    let ghost evs = events_view(events@);
    let mut state = new_state();
    let mut folder_stack: Vec<String> = Vec::new();
    let mut results: Vec<Placemark> = Vec::new();
    let n = events.len();
    let mut i: usize = 0;
    while i < n
        invariant
            n == events@.len(),
            evs == events_view(events@),
            i <= n,
            forall|k: int| 0 <= k < i ==> !is_terminal(#[trigger] evs[k]),
            events_before_end(evs, 0) == events_before_end(evs, i as int),
            model_of(&state, folder_stack@, results@) == spec_run(evs.take(i as int), root_name@),
        ensures
            i <= n,
            i < n ==> is_terminal(evs[i as int]),
            events_before_end(evs, 0) == events_before_end(evs, i as int),
            model_of(&state, folder_stack@, results@) == spec_run(evs.take(i as int), root_name@),
        decreases n - i,
    {
        let event = &events[i];
        match event {
            XmlEvent::Eof => {
                break;
            },
            XmlEvent::Error(_) => {
                break;
            },
            _ => {},
        }
        proof {
            assert(evs.take(i + 1).drop_last() =~= evs.take(i as int));
        }
        process_event(event, &mut folder_stack, &mut state, &mut results, root_name);
        i = i + 1;
    }
    proof {
        if i < n {
            assert(is_terminal(evs[i as int]));
        }
        assert(events_before_end(evs, i as int) == i);
    }
    if i < n {
        match &events[i] {
            XmlEvent::Error(m) => {
                return Err(AnalyzerError::ParsingError(m.clone()));
            },
            _ => {},
        }
    }
    Ok(results)
}

/// The first `n` events of a text.
pub open spec fn xml_events(input: Seq<u8>, n: int) -> Seq<XmlEventView> {
    Seq::new(n as nat, |k: int| xml_event_at(input, k))
}

/// The position before the `k`-th event.
pub open spec fn xml_offset_before(input: Seq<u8>, k: int) -> int {
    if k <= 0 {
        0
    } else {
        xml_offset_after(input, k - 1)
    }
}

/// Whether the reading stops at the `k`-th event: it is the end of the
/// document or an error, or (which `quick_xml` never does) it does not move
/// forward within the text.
pub open spec fn xml_stops_at(input: Seq<u8>, k: int) -> bool {
    ||| is_terminal(xml_event_at(input, k))
    ||| xml_offset_after(input, k) <= xml_offset_before(input, k)
    ||| xml_offset_after(input, k) > input.len()
}

/// What a text gives when the reading stops at its `n`-th event: the
/// reader's message where that event is an error, else the tracks of the
/// events before it.
pub open spec fn spec_stop_outcome(input: Seq<u8>, n: int, root_name: Seq<char>) -> std::result::Result<
    Seq<PlacemarkView>,
    Seq<char>,
> {
    match xml_event_at(input, n) {
        XmlEventView::Error(m) => Err(m),
        _ => Ok(spec_run(xml_events(input, n), root_name).results),
    }
}

/// Whether `r` is what a KML text gives: its events are read up to the one
/// at which the reading stops, as `spec_stop_outcome` says.
pub open spec fn kml_outcome(
    input: Seq<u8>,
    root_name: Seq<char>,
    r: std::result::Result<Vec<Placemark>, AnalyzerError>,
) -> bool {
    exists|n: int|
        0 <= n && #[trigger] xml_stops_at(input, n) && (forall|k: int|
            0 <= k < n ==> !xml_stops_at(input, k)) && matches_outcome(
            r,
            spec_stop_outcome(input, n, root_name),
        )
}

/// The tracks of a KML text, given as bytes, read event by event: those of
/// its events before the end of the document, or a `ParsingError` where the
/// XML reader reports an error.
pub fn parse_kml_bytes(input: &[u8], root_name: &str) -> (r: Result<Vec<Placemark>>)
    ensures
        kml_outcome(input@, root_name@, r),
{
    let mut source = XmlSource::new(input);
    let len = input.len() as u64;
    let mut state = new_state();
    let mut folder_stack: Vec<String> = Vec::new();
    let mut results: Vec<Placemark> = Vec::new();
    let mut prev: u64 = 0;
    let mut stop_error: Option<String> = None;
    let ghost mut n: int = 0;
    loop
        invariant_except_break
            source.count() == n,
            stop_error is None,
        invariant
            source.input() == input@,
            0 <= n,
            len == input@.len(),
            prev <= len,
            prev == xml_offset_before(input@, n),
            forall|k: int| 0 <= k < n ==> !xml_stops_at(input@, k),
            model_of(&state, folder_stack@, results@) == spec_run(xml_events(input@, n), root_name@),
        ensures
            0 <= n,
            xml_stops_at(input@, n),
            forall|k: int| 0 <= k < n ==> !xml_stops_at(input@, k),
            model_of(&state, folder_stack@, results@) == spec_run(xml_events(input@, n), root_name@),
            match stop_error {
                Some(m) => xml_event_at(input@, n) == XmlEventView::Error(m@),
                None => !(xml_event_at(input@, n) is Error),
            },
        decreases len - prev,
    {
        let (event, pos) = source.next();
        if event.ends_reading() || pos <= prev || pos > len {
            match event {
                XmlEvent::Error(m) => {
                    stop_error = Some(m);
                },
                _ => {},
            }
            break;
        }
        proof {
            assert(xml_events(input@, n + 1).drop_last() =~= xml_events(input@, n));
        }
        process_event(&event, &mut folder_stack, &mut state, &mut results, root_name);
        prev = pos;
        proof {
            n = n + 1;
        }
    }
    match stop_error {
        Some(m) => Err(AnalyzerError::ParsingError(m)),
        None => Ok(results),
    }
}

/// Whether an extension names a KMZ file: `kmz` in any ASCII case.
pub open spec fn is_kmz_extension(ext: Option<Seq<char>>) -> bool {
    match ext {
        Some(e) => lower_text(e) == "kmz"@,
        None => false,
    }
}

/// Tests whether an extension names a KMZ file.
pub fn kmz_extension(ext: &Option<String>) -> (r: bool)
    ensures
        r == is_kmz_extension(match ext {
            Some(e) => Some(e@),
            None => None,
        }),
{
    match ext {
        Some(e) => {
            let l = lower_chars(&to_chars(e.as_str()));
            proof {
                reveal_strlit("kmz");
            }
            let r = l.len() == 3 && has_literal_at(&l, 0, "kmz");
            proof {
                if l@.len() == 3 {
                    assert(l@.subrange(0, 3) =~= l@);
                }
            }
            r
        },
        None => false,
    }
}

/// Whether a file path names a KMZ file, by the extension of its last
/// component (`Path::extension`).
pub fn is_kmz_file(file_path: &str) -> (r: bool)
    ensures
        r == is_kmz_extension(std_path_extension(file_path@)),
{
    let ext = path_extension(file_path);
    kmz_extension(&ext)
}

/// Whether `r` is what reading a KML file (`is_kmz` false) or a KMZ archive
/// (`is_kmz` true) of the given content gives.
pub open spec fn extraction(
    content: Seq<u8>,
    is_kmz: bool,
    root_name: Seq<char>,
    r: std::result::Result<Vec<Placemark>, AnalyzerError>,
) -> bool {
    if is_kmz {
        match zip_open_error(content) {
            Some(m) => r matches Err(e) && (e matches AnalyzerError::KmzError(t) && t@ == m),
            None => match spec_kml_of_archive(content) {
                Some(kml) => kml_outcome(kml, root_name, r),
                None => r matches Err(e) && (e matches AnalyzerError::KmzError(t) && t@
                    == NO_KML_MESSAGE@),
            },
        }
    } else {
        kml_outcome(content, root_name, r)
    }
}

/// Reads the tracks of a KML file, or of the KML document of a KMZ archive
/// (`doc.kml`, or else its first `.kml` entry); an ill-formed KML text gives
/// a `ParsingError`.
pub fn extract_placemarks(content: &[u8], is_kmz: bool, root_name: &str) -> (r: Result<
    Vec<Placemark>,
>)
    ensures
        extraction(content@, is_kmz, root_name@, r),
{
    if is_kmz {
        let kml = extract_kml_from_kmz(content)?;
        parse_kml_bytes(kml.as_slice(), root_name)
    } else {
        parse_kml_bytes(content, root_name)
    }
}

/// The name of the root folder of a file: the file name without its
/// extension (empty when the path has no file name).
pub open spec fn root_name_of(file_path: Seq<char>) -> Seq<char> {
    match std_path_file_stem(file_path) {
        Some(s) => s,
        None => Seq::empty(),
    }
}

/// Reads the tracks of the KML or KMZ file at `file_path`, whose content is
/// given.  A file is read as KMZ when its extension is `kmz` in any ASCII
/// case; the folders named like the file (without its extension) are left
/// out of the labels. A KML text that the XML reader finds ill-formed gives a
/// `ParsingError`, and a KMZ archive that cannot be read, or holds no KML
/// document, a `KmzError`.
pub fn extract_placemarks_with_paths(file_path: &str, content: &[u8]) -> (r: Result<
    Vec<Placemark>,
>)
    ensures
        extraction(
            content@,
            is_kmz_extension(std_path_extension(file_path@)),
            root_name_of(file_path@),
            r,
        ),
{
    let is_kmz = is_kmz_file(file_path);
    let root_name = match path_file_stem(file_path) {
        Some(stem) => stem,
        None => String::new(),
    };
    extract_placemarks(content, is_kmz, root_name.as_str())
}

/// Two results of one KML text that `kml_outcome` admits agree: both are the
/// same tracks, or both are a `ParsingError` with the same message.
pub open spec fn same_outcome(
    a: std::result::Result<Vec<Placemark>, AnalyzerError>,
    b: std::result::Result<Vec<Placemark>, AnalyzerError>,
) -> bool {
    match (a, b) {
        (Ok(x), Ok(y)) => results_view(x@) == results_view(y@),
        (Err(AnalyzerError::ParsingError(m)), Err(AnalyzerError::ParsingError(t))) => m@ == t@,
        _ => false,
    }
}

/// A KML text has one outcome: `kml_outcome` admits no two that differ.
pub proof fn lemma_kml_outcome_unique(
    input: Seq<u8>,
    root_name: Seq<char>,
    a: std::result::Result<Vec<Placemark>, AnalyzerError>,
    b: std::result::Result<Vec<Placemark>, AnalyzerError>,
)
    requires
        kml_outcome(input, root_name, a),
        kml_outcome(input, root_name, b),
    ensures
        same_outcome(a, b),
{
    let n1 = choose|n: int|
        0 <= n && #[trigger] xml_stops_at(input, n) && (forall|k: int|
            0 <= k < n ==> !xml_stops_at(input, k)) && matches_outcome(
            a,
            spec_stop_outcome(input, n, root_name),
        );
    let n2 = choose|n: int|
        0 <= n && #[trigger] xml_stops_at(input, n) && (forall|k: int|
            0 <= k < n ==> !xml_stops_at(input, k)) && matches_outcome(
            b,
            spec_stop_outcome(input, n, root_name),
        );
    if n1 < n2 {
        assert(!xml_stops_at(input, n1));
    } else if n2 < n1 {
        assert(!xml_stops_at(input, n2));
    }
    assert(n1 == n2);
}

/// A KMZ archive gives what its KML document gives, read as a KML file
/// under the same root name: the same tracks, with the same folder paths and
/// labels, or the same XML error.
pub proof fn law_kmz_reads_as_its_kml(
    archive: Seq<u8>,
    kml: Seq<u8>,
    root_name: Seq<char>,
    from_kmz: std::result::Result<Vec<Placemark>, AnalyzerError>,
    from_kml: std::result::Result<Vec<Placemark>, AnalyzerError>,
)
    requires
        zip_open_error(archive) is None,
        spec_kml_of_archive(archive) == Some(kml),
        extraction(archive, true, root_name, from_kmz),
        extraction(kml, false, root_name, from_kml),
    ensures
        same_outcome(from_kmz, from_kml),
{
    lemma_kml_outcome_unique(kml, root_name, from_kmz, from_kml);
}

/// One event never takes a track back: the tracks after it begin with the
/// tracks before it.
proof fn lemma_step_keeps_tracks(m: ParserModel, e: XmlEventView, root_name: Seq<char>)
    ensures
        m.results.is_prefix_of(spec_event_step(m, e, root_name).results),
{
    let r = spec_event_step(m, e, root_name).results;
    assert(m.results =~= r.subrange(0, m.results.len() as int));
}

/// Tracks come out in document order and are never changed afterwards: the
/// tracks read from the first events of a document begin the tracks read
/// from all of it.
pub proof fn law_earlier_tracks_kept(events: Seq<XmlEventView>, k: int, root_name: Seq<char>)
    requires
        0 <= k <= events.len(),
    ensures
        spec_run(events.take(k), root_name).results.is_prefix_of(
            spec_run(events, root_name).results,
        ),
    decreases events.len() - k,
{
    if k == events.len() {
        assert(events.take(k) =~= events);
    } else {
        law_earlier_tracks_kept(events, k + 1, root_name);
        let next = events.take(k + 1);
        assert(next.drop_last() =~= events.take(k));
        lemma_step_keeps_tracks(spec_run(events.take(k), root_name), next.last(), root_name);
        let a = spec_run(events.take(k), root_name).results;
        let b = spec_run(next, root_name).results;
        let c = spec_run(events, root_name).results;
        assert(a =~= c.subrange(0, a.len() as int));
    }
}

/// The state after a sequence of events read from a given state.
pub open spec fn spec_run_from(
    m: ParserModel,
    events: Seq<XmlEventView>,
    root_name: Seq<char>,
) -> ParserModel
    decreases events.len(),
{
    if events.len() == 0 {
        m
    } else {
        spec_event_step(spec_run_from(m, events.drop_last(), root_name), events.last(), root_name)
    }
}

/// Reading two runs of events one after the other is reading the first, then
/// the second from where the first left off.
proof fn lemma_run_from_split(
    m: ParserModel,
    a: Seq<XmlEventView>,
    b: Seq<XmlEventView>,
    root_name: Seq<char>,
)
    ensures
        spec_run_from(m, a + b, root_name) == spec_run_from(
            spec_run_from(m, a, root_name),
            b,
            root_name,
        ),
    decreases b.len(),
{
    if b.len() == 0 {
        assert(a + b =~= a);
    } else {
        assert((a + b).drop_last() =~= a + b.drop_last());
        assert((a + b).last() == b.last());
        lemma_run_from_split(m, a, b.drop_last(), root_name);
    }
}

/// A document is read from the state before the first event.
proof fn lemma_run_is_run_from(events: Seq<XmlEventView>, root_name: Seq<char>)
    ensures
        spec_run(events, root_name) == spec_run_from(initial_model(), events, root_name),
    decreases events.len(),
{
    if events.len() > 0 {
        lemma_run_is_run_from(events.drop_last(), root_name);
    }
}

/// Two states that agree on everything but the tracks read so far.
pub open spec fn same_but_tracks(a: ParserModel, b: ParserModel) -> bool {
    &&& a.in_placemark == b.in_placemark
    &&& a.active == b.active
    &&& a.name == b.name
    &&& a.description == b.description
    &&& a.coordinates == b.coordinates
    &&& a.folders == b.folders
}

/// The tracks that a run added to those of the state it started from.
pub open spec fn tracks_added(from: ParserModel, to: ParserModel) -> Seq<PlacemarkView> {
    to.results.skip(from.results.len() as int)
}

/// One event on two states that agree but for their tracks: they still
/// agree, and the event adds the same tracks to both.
proof fn lemma_step_agrees(a: ParserModel, b: ParserModel, e: XmlEventView, root_name: Seq<char>)
    requires
        same_but_tracks(a, b),
    ensures
        same_but_tracks(spec_event_step(a, e, root_name), spec_event_step(b, e, root_name)),
        tracks_added(a, spec_event_step(a, e, root_name)) == tracks_added(
            b,
            spec_event_step(b, e, root_name),
        ),
        a.results.is_prefix_of(spec_event_step(a, e, root_name).results),
{
    lemma_step_keeps_tracks(a, e, root_name);
    let a2 = spec_event_step(a, e, root_name);
    let b2 = spec_event_step(b, e, root_name);
    if a2.results.len() == a.results.len() {
        assert(tracks_added(a, a2) =~= Seq::<PlacemarkView>::empty());
        assert(tracks_added(b, b2) =~= Seq::<PlacemarkView>::empty());
    } else {
        assert(tracks_added(a, a2) =~= seq![a2.results.last()]);
        assert(tracks_added(b, b2) =~= seq![b2.results.last()]);
    }
}

/// A run of events on two states that agree but for their tracks: they
/// still agree at its end, and the run adds the same tracks to both.
proof fn lemma_run_agrees(
    a: ParserModel,
    b: ParserModel,
    events: Seq<XmlEventView>,
    root_name: Seq<char>,
)
    requires
        same_but_tracks(a, b),
    ensures
        same_but_tracks(spec_run_from(a, events, root_name), spec_run_from(b, events, root_name)),
        tracks_added(a, spec_run_from(a, events, root_name)) == tracks_added(
            b,
            spec_run_from(b, events, root_name),
        ),
        a.results.is_prefix_of(spec_run_from(a, events, root_name).results),
        b.results.is_prefix_of(spec_run_from(b, events, root_name).results),
    decreases events.len(),
{
    if events.len() == 0 {
        assert(tracks_added(a, a) =~= Seq::<PlacemarkView>::empty());
        assert(tracks_added(b, b) =~= Seq::<PlacemarkView>::empty());
    } else {
        let rest = events.drop_last();
        lemma_run_agrees(a, b, rest, root_name);
        let a1 = spec_run_from(a, rest, root_name);
        let b1 = spec_run_from(b, rest, root_name);
        lemma_step_agrees(a1, b1, events.last(), root_name);
        lemma_step_agrees(b1, a1, events.last(), root_name);
        let a2 = spec_run_from(a, events, root_name);
        let b2 = spec_run_from(b, events, root_name);
        assert(tracks_added(a, a2) =~= tracks_added(a, a1) + tracks_added(a1, a2));
        assert(tracks_added(b, b2) =~= tracks_added(b, b1) + tracks_added(b1, b2));
    }
}

/// A `Placemark` start tag begins a placemark with an empty name,
/// description and coordinates and no active field, whatever the state
/// before it; the folders and the tracks read so far stay.
pub proof fn law_placemark_starts_empty(m: ParserModel, root_name: Seq<char>)
    ensures
        ({
            let p = spec_event_step(m, XmlEventView::Start("Placemark"@), root_name);
            &&& p.in_placemark
            &&& p.active == ActiveTextField::Inactive
            &&& p.name.len() == 0
            &&& p.description.len() == 0
            &&& p.coordinates.len() == 0
            &&& p.folders == m.folders
            &&& p.results == m.results
        }),
{
    lemma_tag_literals();
}

/// A track is read from its own placemark alone: from a `Placemark` start
/// tag on, what is read depends only on the enclosing folders and on the
/// events from that tag on, not on any earlier placemark. Two documents
/// whose first events leave the same folders open, continued by the same
/// events from a `Placemark` start tag, gain the same tracks, and end in the
/// same state but for the tracks read before.
pub proof fn law_track_reads_only_its_placemark(
    before1: Seq<XmlEventView>,
    before2: Seq<XmlEventView>,
    events: Seq<XmlEventView>,
    root_name: Seq<char>,
)
    requires
        spec_run(before1, root_name).folders == spec_run(before2, root_name).folders,
        events.len() > 0,
        events[0] == XmlEventView::Start("Placemark"@),
    ensures
        spec_run(before1, root_name).results.is_prefix_of(
            spec_run(before1 + events, root_name).results,
        ),
        tracks_added(spec_run(before1, root_name), spec_run(before1 + events, root_name))
            == tracks_added(spec_run(before2, root_name), spec_run(before2 + events, root_name)),
        same_but_tracks(spec_run(before1 + events, root_name), spec_run(before2 + events, root_name)),
{
    let r1 = spec_run(before1, root_name);
    let r2 = spec_run(before2, root_name);
    let first = seq![events[0]];
    let rest = events.skip(1);
    assert(events =~= first + rest);
    lemma_run_is_run_from(before1, root_name);
    lemma_run_is_run_from(before2, root_name);
    lemma_run_is_run_from(before1 + events, root_name);
    lemma_run_is_run_from(before2 + events, root_name);
    lemma_run_from_split(initial_model(), before1, events, root_name);
    lemma_run_from_split(initial_model(), before2, events, root_name);
    lemma_run_from_split(r1, first, rest, root_name);
    lemma_run_from_split(r2, first, rest, root_name);
    assert(first.drop_last() =~= Seq::<XmlEventView>::empty());
    assert(first.last() == events[0]);
    assert(spec_run_from(r1, Seq::<XmlEventView>::empty(), root_name) == r1);
    assert(spec_run_from(r2, Seq::<XmlEventView>::empty(), root_name) == r2);
    law_placemark_starts_empty(r1, root_name);
    law_placemark_starts_empty(r2, root_name);
    let p1 = spec_run_from(r1, first, root_name);
    let p2 = spec_run_from(r2, first, root_name);
    assert(p1 == spec_event_step(r1, events[0], root_name));
    assert(p1.name =~= p2.name);
    assert(p1.description =~= p2.description);
    assert(p1.coordinates =~= p2.coordinates);
    lemma_run_agrees(p1, p2, rest, root_name);
    assert(tracks_added(r1, spec_run(before1 + events, root_name)) =~= tracks_added(
        p1,
        spec_run_from(p1, rest, root_name),
    ));
    assert(tracks_added(r2, spec_run(before2 + events, root_name)) =~= tracks_added(
        p2,
        spec_run_from(p2, rest, root_name),
    ));
}

/// Whether an event is a `Folder` start or end tag.
pub open spec fn is_folder_tag(e: XmlEventView) -> bool {
    e == XmlEventView::Start("Folder"@) || e == XmlEventView::End("Folder"@)
}

/// An event that is no `Folder` tag keeps the number of open folders and all
/// of them but the innermost, whose name it may extend.
proof fn lemma_step_keeps_outer_folders(m: ParserModel, e: XmlEventView, root_name: Seq<char>)
    requires
        !is_folder_tag(e),
    ensures
        spec_event_step(m, e, root_name).folders.len() == m.folders.len(),
        spec_event_step(m, e, root_name).folders.drop_last() == m.folders.drop_last(),
{
    let m2 = spec_event_step(m, e, root_name);
    if m2.folders.len() > 0 {
        assert(m2.folders.drop_last() =~= m.folders.drop_last());
    }
}

/// A `Folder` end tag closes the innermost open folder; the folders that
/// enclose it stay as they were.
pub proof fn law_folder_end_closes_innermost(m: ParserModel, root_name: Seq<char>)
    requires
        m.folders.len() > 0,
    ensures
        spec_event_step(m, XmlEventView::End("Folder"@), root_name).folders
            == m.folders.drop_last(),
{
}

/// A folder that is opened and closed again, with no other folder tag in
/// between, leaves the open folders as they were before it: a track after
/// it is not labelled by it.
pub proof fn law_closed_folder_leaves_no_trace(
    before: Seq<XmlEventView>,
    body: Seq<XmlEventView>,
    root_name: Seq<char>,
)
    requires
        forall|i: int| 0 <= i < body.len() ==> !is_folder_tag(#[trigger] body[i]),
    ensures
        spec_run(
            before + seq![XmlEventView::Start("Folder"@)] + body + seq![XmlEventView::End("Folder"@)],
            root_name,
        ).folders == spec_run(before, root_name).folders,
{
    let open = seq![XmlEventView::Start("Folder"@)];
    let close = seq![XmlEventView::End("Folder"@)];
    let all = before + open + body + close;
    let m = spec_run(before, root_name);
    lemma_run_is_run_from(before, root_name);
    lemma_run_is_run_from(all, root_name);
    lemma_run_from_split(initial_model(), before + open + body, close, root_name);
    lemma_run_from_split(initial_model(), before + open, body, root_name);
    lemma_run_from_split(initial_model(), before, open, root_name);
    assert(open.drop_last() =~= Seq::<XmlEventView>::empty());
    assert(close.drop_last() =~= Seq::<XmlEventView>::empty());
    assert(spec_run_from(m, Seq::<XmlEventView>::empty(), root_name) == m);
    assert(open.last() == XmlEventView::Start("Folder"@));
    let m1 = spec_run_from(m, open, root_name);
    assert(m1 == spec_event_step(m, XmlEventView::Start("Folder"@), root_name));
    assert(m1.folders == m.folders.push(Seq::empty()));
    lemma_body_keeps_outer_folders(m1, body, root_name);
    let m2 = spec_run_from(m1, body, root_name);
    assert(m2.folders.drop_last() =~= m.folders);
    assert(spec_run_from(m2, Seq::<XmlEventView>::empty(), root_name) == m2);
    assert(close.last() == XmlEventView::End("Folder"@));
    assert(spec_run_from(m2, close, root_name) == spec_event_step(
        m2,
        XmlEventView::End("Folder"@),
        root_name,
    ));
}

/// Events with no `Folder` tag keep the number of open folders and all of
/// them but the innermost.
proof fn lemma_body_keeps_outer_folders(
    m: ParserModel,
    body: Seq<XmlEventView>,
    root_name: Seq<char>,
)
    requires
        forall|i: int| 0 <= i < body.len() ==> !is_folder_tag(#[trigger] body[i]),
    ensures
        spec_run_from(m, body, root_name).folders.len() == m.folders.len(),
        spec_run_from(m, body, root_name).folders.drop_last() == m.folders.drop_last(),
    decreases body.len(),
{
    if body.len() > 0 {
        let rest = body.drop_last();
        assert forall|i: int| 0 <= i < rest.len() implies !is_folder_tag(#[trigger] rest[i]) by {
            assert(rest[i] == body[i]);
        }
        lemma_body_keeps_outer_folders(m, rest, root_name);
        assert(!is_folder_tag(body[body.len() - 1]));
        lemma_step_keeps_outer_folders(spec_run_from(m, rest, root_name), body.last(), root_name);
    }
}

} // verus!
