//! A download's settings, and the decisions taken before and after the
//! transfer: whether to ask about ranges, what the answers mean, what to
//! name the file, and what the finished tasks amount to.
use vstd::prelude::*;
use crate::decimal::{decimal, parse_i32, parse_i32_spec, push_decimal, lemma_decimal_digits,
    digits_value};
use crate::paths::{join_path, joined_path};
use crate::unfinish_json::{BreakPoint, FileInfo};
use crate::text::{last_path_segment, last_segment, push_char, trim, trimmed};

verus! {

/// What a download's settings hold.
pub struct InfoView {
    pub url: Seq<char>,
    pub file_name: Seq<char>,
    pub task_count: u64,
    pub force: bool,
    pub length: u64,
    pub target_dir: Seq<char>,
    pub target: Seq<char>,
}

/// The settings of a download: where from, how many tasks, where to.
pub struct Info {
    url: String,
    file_name: String,
    task_count: u64,
    force: bool,
    length: u64,
    target_dir: String,
    target: String,
}

/// Collects the settings of a download; `build` makes them an `Info`.
pub struct InfoBuilder {
    url: String,
    file_name: String,
    task_count: u64,
    force: bool,
    length: u64,
    target_dir: String,
}

impl View for Info {
    type V = InfoView;

    closed spec fn view(&self) -> InfoView {
        InfoView {
            url: self.url@,
            file_name: self.file_name@,
            task_count: self.task_count,
            force: self.force,
            length: self.length,
            target_dir: self.target_dir@,
            target: self.target@,
        }
    }
}

impl View for InfoBuilder {
    type V = InfoView;

    /// The settings collected so far; the target is not chosen yet.
    closed spec fn view(&self) -> InfoView {
        InfoView {
            url: self.url@,
            file_name: self.file_name@,
            task_count: self.task_count,
            force: self.force,
            length: self.length,
            target_dir: self.target_dir@,
            target: Seq::empty(),
        }
    }
}

/// What the user answered to a question that may end the program.
#[derive(Debug, PartialEq, Eq, Structural)]
pub enum Answer {
    /// Go on with the download.
    Proceed,
    /// Stop the program with this exit code.
    Exit(i32),
}

/// What the user chose to do about a target file that exists already.
#[derive(Debug, PartialEq, Eq, Structural)]
pub enum ExistsAnswer {
    /// Type in another name.
    CustomName,
    /// Take the first free name `file_name(n)`.
    Numbered,
    /// Remove the file there and write over it.
    Cover,
    /// Stop the program with this exit code.
    Exit(i32),
}

/// What the tasks of a download amount to once they are awaited.
#[derive(Debug, PartialEq, Eq, Structural)]
pub enum Outcome {
    /// Not every task reported its end.
    Incomplete,
    /// Every task ended, but the download was interrupted: the missing
    /// ranges are to be saved.
    Interrupted,
    /// Every task ended and the file is whole.
    Complete,
}

/// One setting that a builder method writes.
pub enum Setting {
    Url(Seq<char>),
    FileName(Seq<char>),
    TaskCount(u64),
    Force(bool),
    Length(u64),
    TargetDir(Seq<char>),
}

/// Which setting a `Setting` writes, as a number of its own for each.
pub open spec fn setting_kind(s: Setting) -> int {
    match s {
        Setting::Url(_) => 0,
        Setting::FileName(_) => 1,
        Setting::TaskCount(_) => 2,
        Setting::Force(_) => 3,
        Setting::Length(_) => 4,
        Setting::TargetDir(_) => 5,
    }
}

/// The settings `v` with the one that `s` writes replaced.
pub open spec fn apply_setting(v: InfoView, s: Setting) -> InfoView {
    match s {
        Setting::Url(x) => InfoView { url: x, ..v },
        Setting::FileName(x) => InfoView { file_name: x, ..v },
        Setting::TaskCount(x) => InfoView { task_count: x, ..v },
        Setting::Force(x) => InfoView { force: x, ..v },
        Setting::Length(x) => InfoView { length: x, ..v },
        Setting::TargetDir(x) => InfoView { target_dir: x, ..v },
    }
}

/// The settings that `build` makes of a builder's settings `v`: the same,
/// with the file `file_name` in `target_dir` as target.
pub open spec fn built(v: InfoView) -> InfoView {
    InfoView { target: joined_path(v.target_dir, v.file_name), ..v }
}

/// A builder's settings may be given in any order, and of two writes of the
/// same setting the last one counts: two different settings applied in
/// either order build the same `Info`, and a setting written twice builds
/// what writing it once with the second value builds.
pub proof fn lemma_settings_commute(v: InfoView, a: Setting, b: Setting)
    ensures
        setting_kind(a) != setting_kind(b) ==> built(apply_setting(apply_setting(v, a), b)) == built(
            apply_setting(apply_setting(v, b), a),
        ),
        setting_kind(a) == setting_kind(b) ==> built(apply_setting(apply_setting(v, a), b)) == built(
            apply_setting(v, b),
        ),
{
}

/// Each builder method writes the value it is given into its own setting,
/// unchanged, and leaves the others as they were; the target that is built
/// then lies in the directory given, under the file name given.
pub proof fn lemma_setting_written(v: InfoView, s: Setting)
    ensures
        s matches Setting::Url(x) ==> apply_setting(v, s) == (InfoView { url: x, ..v }),
        s matches Setting::FileName(x) ==> apply_setting(v, s) == (InfoView { file_name: x, ..v }),
        s matches Setting::TaskCount(x) ==> apply_setting(v, s) == (InfoView { task_count: x, ..v }),
        s matches Setting::Force(x) ==> apply_setting(v, s) == (InfoView { force: x, ..v }),
        s matches Setting::Length(x) ==> apply_setting(v, s) == (InfoView { length: x, ..v }),
        s matches Setting::TargetDir(x) ==> apply_setting(v, s) == (InfoView { target_dir: x, ..v }),
        s matches Setting::TargetDir(x) ==> built(apply_setting(v, s)).target_dir == x
            && built(apply_setting(v, s)).target == joined_path(x, v.file_name),
        s matches Setting::FileName(x) ==> built(apply_setting(v, s)).target == joined_path(
            v.target_dir,
            x,
        ),
{
}

/// The name `name(n)` that a download takes when `name` is in use.
pub open spec fn numbered_name(name: Seq<char>, n: nat) -> Seq<char> {
    name + seq!['('] + decimal(n) + seq![')']
}

/// The name a download is saved under: `rename`, or when that is empty the
/// last part of the URL.
pub open spec fn chosen_name(url: Seq<char>, rename: Seq<char>) -> Seq<char> {
    if rename.len() == 0 {
        last_segment(url)
    } else {
        rename
    }
}

/// Whether a server's `Accept-Ranges` header lets a file be fetched in
/// parts: it must be there and not say `none`.
pub open spec fn ranges_accepted(header: Option<Seq<char>>) -> bool {
    match header {
        Some(v) => v != seq!['n', 'o', 'n', 'e'],
        None => false,
    }
}

/// What the tasks amount to when `finished` of the `expected` tasks
/// reported their end and `running` tells whether no interruption came.
pub open spec fn outcome_of(finished: usize, expected: usize, running: bool) -> Outcome {
    if finished != expected {
        Outcome::Incomplete
    } else if !running {
        Outcome::Interrupted
    } else {
        Outcome::Complete
    }
}

impl InfoBuilder {
    /// Sets the URL to fetch.
    pub fn url(self, url: &str) -> (r: InfoBuilder)
        ensures
            r@ == apply_setting(self@, Setting::Url(url@)),
            r@ == (InfoView { url: url@, ..self@ }),
    {
        InfoBuilder { url: url.to_owned(), ..self }
    }

    /// Sets the name of the file to write.
    pub fn file_name(self, name: &str) -> (r: InfoBuilder)
        ensures
            r@ == apply_setting(self@, Setting::FileName(name@)),
            r@ == (InfoView { file_name: name@, ..self@ }),
    {
        InfoBuilder { file_name: name.to_owned(), ..self }
    }

    /// Sets the number of tasks that fetch parts of the file.
    pub fn task_count(self, count: u64) -> (r: InfoBuilder)
        ensures
            r@ == apply_setting(self@, Setting::TaskCount(count)),
            r@ == (InfoView { task_count: count, ..self@ }),
    {
        InfoBuilder { task_count: count, ..self }
    }

    /// Sets whether to split the download even where the server may not
    /// serve ranges.
    pub fn force(self, force: bool) -> (r: InfoBuilder)
        ensures
            r@ == apply_setting(self@, Setting::Force(force)),
            r@ == (InfoView { force: force, ..self@ }),
    {
        InfoBuilder { force, ..self }
    }

    /// Sets the size of the file in bytes.
    pub fn length(self, length: u64) -> (r: InfoBuilder)
        ensures
            r@ == apply_setting(self@, Setting::Length(length)),
            r@ == (InfoView { length: length, ..self@ }),
    {
        InfoBuilder { length, ..self }
    }

    /// Sets the directory to write in.
    pub fn target_dir(self, path: String) -> (r: InfoBuilder)
        ensures
            r@ == apply_setting(self@, Setting::TargetDir(path@)),
            r@.target_dir == path@,
            r@ == (InfoView { target_dir: path@, ..self@ }),
    {
        InfoBuilder { target_dir: path, ..self }
    }

    /// The settings collected, with the file `file_name` in `target_dir` as
    /// target.
    pub fn build(self) -> (r: Info)
        ensures
            r@ == built(self@),
            r@.target == joined_path(self@.target_dir, self@.file_name),
            r@ == (InfoView { target: joined_path(self@.target_dir, self@.file_name), ..self@ }),
    {
        let target = join_path(self.target_dir.as_str(), self.file_name.as_str());
        Info {
            url: self.url,
            file_name: self.file_name,
            task_count: self.task_count,
            force: self.force,
            length: self.length,
            target_dir: self.target_dir,
            target,
        }
    }
}

impl Info {
    /// A builder with no settings yet: empty texts, no tasks, no force,
    /// length 0.
    pub fn new() -> (r: InfoBuilder)
        ensures
            r@ == (InfoView {
                url: Seq::empty(),
                file_name: Seq::empty(),
                task_count: 0,
                force: false,
                length: 0,
                target_dir: Seq::empty(),
                target: Seq::empty(),
            }),
    {
        InfoBuilder {
            url: String::new(),
            file_name: String::new(),
            task_count: 0,
            force: false,
            length: 0,
            target_dir: String::new(),
        }
    }

    /// The URL to fetch.
    pub fn url(&self) -> (r: &str)
        ensures
            r@ == self@.url,
    {
        self.url.as_str()
    }

    /// The name of the file.
    pub fn file_name(&self) -> (r: &str)
        ensures
            r@ == self@.file_name,
    {
        self.file_name.as_str()
    }

    /// The number of tasks.
    pub fn task_count(&self) -> (r: u64)
        ensures
            r == self@.task_count,
    {
        self.task_count
    }

    /// Whether ranges are used whatever the server says.
    pub fn force(&self) -> (r: bool)
        ensures
            r == self@.force,
    {
        self.force
    }

    /// The size of the file in bytes.
    pub fn length(&self) -> (r: u64)
        ensures
            r == self@.length,
    {
        self.length
    }

    /// The directory written in.
    pub fn target_dir(&self) -> (r: &str)
        ensures
            r@ == self@.target_dir,
    {
        self.target_dir.as_str()
    }

    /// The path written to.
    pub fn target(&self) -> (r: &str)
        ensures
            r@ == self@.target,
    {
        self.target.as_str()
    }

    /// The last byte of the file, where the last task stops.
    pub fn last_byte(&self) -> (r: u64)
        requires
            self@.length > 0,
        ensures
            r == self@.length - 1,
    {
        self.length - 1
    }

    /// Whether to ask the user before a split download: the server does not
    /// accept ranges, or answered with a partial content status (206), while
    /// more than one task is asked for and not forced.
    pub fn needs_range_prompt(&self, accept_range: bool, status: u16) -> (r: bool)
        ensures
            r == ((!accept_range || status == 206) && !(self@.task_count == 1 || self@.force)),
    {
        let pass = self.task_count == 1 || self.force;
        !accept_range && !pass || status == 206 && !pass
    }

    /// Takes the answer to the question about ranges: `1` goes on, `2` goes
    /// on with a single task, another number stops with code 0, and what is
    /// not a number stops with code 1.
    pub fn answer_range_prompt(&mut self, input: &str) -> (r: Answer)
        ensures
            match parse_i32_spec(trimmed(input@)) {
                Some(i) => if i == 1 {
                    r == Answer::Proceed && final(self)@ == old(self)@
                } else if i == 2 {
                    r == Answer::Proceed && final(self)@ == (InfoView { task_count: 1, ..old(self)@ })
                } else {
                    r == Answer::Exit(0) && final(self)@ == old(self)@
                },
                None => r == Answer::Exit(1) && final(self)@ == old(self)@,
            },
    {
        let text = trim(input);
        match parse_i32(text.as_str()) {
            Some(i) => {
                if i == 1 {
                    Answer::Proceed
                } else if i == 2 {
                    self.task_count = 1;
                    Answer::Proceed
                } else {
                    Answer::Exit(0)
                }
            },
            None => Answer::Exit(1),
        }
    }

    /// Takes the answer to the question about a target that exists: `1`
    /// asks for a name, `2` numbers the name, `3` writes over the file,
    /// another number stops with code 0, and what is not a number stops
    /// with code 1.
    pub fn answer_exists_prompt(input: &str) -> (r: ExistsAnswer)
        ensures
            r == match parse_i32_spec(trimmed(input@)) {
                Some(i) => if i == 1 {
                    ExistsAnswer::CustomName
                } else if i == 2 {
                    ExistsAnswer::Numbered
                } else if i == 3 {
                    ExistsAnswer::Cover
                } else {
                    ExistsAnswer::Exit(0)
                },
                None => ExistsAnswer::Exit(1),
            },
    {
        let text = trim(input);
        match parse_i32(text.as_str()) {
            Some(i) => {
                if i == 1 {
                    ExistsAnswer::CustomName
                } else if i == 2 {
                    ExistsAnswer::Numbered
                } else if i == 3 {
                    ExistsAnswer::Cover
                } else {
                    ExistsAnswer::Exit(0)
                }
            },
            None => ExistsAnswer::Exit(1),
        }
    }

    /// Writes to the entry typed in by the user, without surrounding white
    /// space, in the target directory.
    pub fn use_custom_name(&mut self, input: &str)
        ensures
            final(self)@ == (InfoView { target: joined_path(old(self)@.target_dir, trimmed(input@)), ..old(self)@ }),
    {
        let name = trim(input);
        self.target = join_path(self.target_dir.as_str(), name.as_str());
    }

    /// The name `file_name(n)`.
    pub fn numbered_name(&self, n: u64) -> (r: String)
        ensures
            r@ == numbered_name(self@.file_name, n as nat),
    {
        let mut name = self.file_name.clone();
        push_char(&mut name, '(');
        push_decimal(&mut name, n);
        push_char(&mut name, ')');
        assert(name@ =~= numbered_name(self@.file_name, n as nat));
        name
    }

    /// The path of `file_name(n)` in the target directory.
    pub fn numbered_target(&self, n: u64) -> (r: String)
        ensures
            r@ == joined_path(self@.target_dir, numbered_name(self@.file_name, n as nat)),
    {
        let name = self.numbered_name(n);
        join_path(self.target_dir.as_str(), name.as_str())
    }

    /// Writes to `file_name(n)` in the target directory.
    pub fn use_numbered_name(&mut self, n: u64)
        ensures
            final(self)@ == (InfoView {
                target: joined_path(old(self)@.target_dir, numbered_name(old(self)@.file_name, n as nat)),
                ..old(self)@
            }),
    {
        self.target = self.numbered_target(n);
    }

    /// The entry that records this download if it is interrupted: the
    /// file's name, size and target, and no range missing yet.
    pub fn file_record(&self) -> (r: FileInfo)
        ensures
            r.name@ == self@.file_name,
            r.size == self@.length,
            r.target@ == self@.target,
            r.break_point@ == Seq::<BreakPoint>::empty(),
    {
        FileInfo {
            name: self.file_name.clone(),
            size: self.length,
            target: self.target.clone(),
            break_point: Vec::new(),
        }
    }

    /// What the download's tasks amount to: `finished` of them reported
    /// their end, and `running` tells whether no interruption came.
    pub fn outcome(&self, finished: usize, running: bool) -> (r: Outcome)
        ensures
            r == outcome_of(finished, self@.task_count as usize, running),
    {
        finish_outcome(finished, self.task_count as usize, running)
    }
}

/// What `expected` tasks amount to when `finished` of them reported their
/// end and `running` tells whether no interruption came.
pub fn finish_outcome(finished: usize, expected: usize, running: bool) -> (r: Outcome)
    ensures
        r == outcome_of(finished, expected, running),
        (r == Outcome::Incomplete) <==> finished != expected,
        (r == Outcome::Interrupted) <==> (finished == expected && !running),
        (r == Outcome::Complete) <==> (finished == expected && running),
{
    if finished != expected {
        Outcome::Incomplete
    } else if !running {
        Outcome::Interrupted
    } else {
        Outcome::Complete
    }
}

/// Once every expected task has ended, however many there are, the outcome
/// is decided by the interruption alone: an interrupted download, even one
/// of a single task, has its missing ranges saved, and one that was not
/// interrupted is complete. While some task has not ended, the download is
/// incomplete.
pub proof fn lemma_outcome_cases(finished: usize, expected: usize, running: bool)
    ensures
        (outcome_of(finished, expected, running) == Outcome::Incomplete) <==> finished != expected,
        (outcome_of(finished, expected, running) == Outcome::Interrupted) <==> (finished == expected
            && !running),
        (outcome_of(finished, expected, running) == Outcome::Complete) <==> (finished == expected
            && running),
        outcome_of(expected, expected, false) == Outcome::Interrupted,
        outcome_of(expected, expected, true) == Outcome::Complete,
{
}

/// Whether a server's `Accept-Ranges` header lets a file be fetched in
/// parts.
pub fn accepts_ranges(header: Option<&str>) -> (r: bool)
    ensures
        r == ranges_accepted(match header {
            Some(v) => Some(v@),
            None => None,
        }),
        header is None ==> !r,
        header matches Some(v) ==> (r <==> v@ != seq!['n', 'o', 'n', 'e']),
{
    match header {
        Some(v) => {
            let none = "none".to_owned();
            proof {
                reveal_strlit("none");
            }
            assert(none@ =~= seq!['n', 'o', 'n', 'e']);
            let given = v.to_owned();
            !(given == none)
        },
        None => false,
    }
}

/// Whether a redirect is followed after `previous` earlier ones: at most
/// five are.
pub fn redirect_allowed(previous: usize) -> (r: bool)
    ensures
        r == (previous <= 5),
{
    !(previous > 5)
}

/// The name a download is saved under: `rename`, or when that is empty the
/// last part of the URL.
pub fn chosen_file_name(url: &str, rename: &str) -> (r: String)
    ensures
        r@ == chosen_name(url@, rename@),
        rename@.len() > 0 ==> r@ == rename@,
        rename@.len() == 0 ==> {
            &&& r@ == url@.subrange(url@.len() - r@.len(), url@.len() as int)
            &&& forall|i: int| 0 <= i < r@.len() ==> #[trigger] r@[i] != '/'
            &&& r@.len() < url@.len() ==> url@[url@.len() - r@.len() - 1] == '/'
        },
{
    if rename.is_empty() {
        last_path_segment(url)
    } else {
        rename.to_owned()
    }
}

/// Different numbers give different names, so the search for a free
/// `file_name(n)` tries a new name at each step.
pub proof fn lemma_numbered_names_differ(name: Seq<char>, m: nat, n: nat)
    requires
        m != n,
    ensures
        numbered_name(name, m) != numbered_name(name, n),
{
    lemma_decimal_digits(m);
    lemma_decimal_digits(n);
    let a = numbered_name(name, m);
    let b = numbered_name(name, n);
    assert(a.len() == name.len() + decimal(m).len() + 2);
    assert(b.len() == name.len() + decimal(n).len() + 2);
    if a == b {
        assert(decimal(m).len() == decimal(n).len());
        let k: int = name.len() as int + 1;
        assert(decimal(m) =~= a.subrange(k, k + decimal(m).len()));
        assert(decimal(n) =~= b.subrange(k, k + decimal(n).len()));
        assert(digits_value(decimal(m)) == digits_value(decimal(n)));
    }
}

/// The search for the first free name `file_name(n)`: numbers are tried
/// from 1 up, and the search stops at the first one whose path is reported
/// free.
pub struct NumberedSearch {
    next: u64,
    taken: Ghost<Set<nat>>,
}

impl NumberedSearch {
    #[verifier::type_invariant]
    spec fn inv(self) -> bool {
        &&& self.next >= 1
        &&& self.taken@ == Set::new(|j: nat| 1 <= j < self.next)
    }

    /// The number to try next.
    pub closed spec fn candidate(self) -> nat {
        self.next as nat
    }

    /// The numbers reported taken so far.
    pub closed spec fn reported_taken(self) -> Set<nat> {
        self.taken@
    }

    /// A search that has tried nothing yet: it starts at 1.
    pub fn new() -> (r: NumberedSearch)
        ensures
            r.candidate() == 1,
            r.reported_taken() == Set::<nat>::empty(),
    {
        let r = NumberedSearch { next: 1, taken: Ghost(Set::new(|j: nat| 1 <= j < 1)) };
        assert(r.taken@ =~= Set::<nat>::empty());
        r
    }

    /// The number to try next.
    pub fn number(&self) -> (r: u64)
        ensures
            r == self.candidate(),
    {
        self.next
    }

    /// Takes whether the path of the number tried is taken. When it is, the
    /// search goes on with the next number and gives `None`; when it is
    /// free, the search gives that number, the least one not reported
    /// taken: every number from 1 up to it was.
    pub fn report(&mut self, taken: bool) -> (r: Option<u64>)
        requires
            taken ==> old(self).candidate() < u64::MAX,
        ensures
            taken ==> r is None && final(self).candidate() == old(self).candidate() + 1
                && final(self).reported_taken() == old(self).reported_taken().insert(old(self).candidate()),
            !taken ==> r == Some(old(self).candidate() as u64) && final(self).candidate()
                == old(self).candidate() && final(self).reported_taken() == old(self).reported_taken(),
            !taken ==> forall|j: nat| 1 <= j < old(self).candidate() ==> #[trigger] old(self).reported_taken().contains(j),
            old(self).candidate() >= 1,
            !old(self).reported_taken().contains(old(self).candidate()),
    {
        proof {
            use_type_invariant(&*self);
        }
        if taken {
            let next = self.next + 1;
            let ghost set = self.taken@.insert(self.next as nat);
            assert(set =~= Set::new(|j: nat| 1 <= j < next));
            *self = NumberedSearch { next, taken: Ghost(set) };
            None
        } else {
            Some(self.next)
        }
    }
}

} // verus!
