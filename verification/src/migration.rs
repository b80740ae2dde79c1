use vstd::prelude::*;
use crate::appver::{semver_order, semver_precedence, Precedence, MAX_SEMVER_LEN};
use crate::error::{DBError, DBResult};
use crate::order::{
    lemma_lex_irreflexive, lemma_lex_le_lt, lemma_lex_lt_le, lemma_lex_total, lex_le, lex_lt,
    str_lt,
};
use crate::utils::{
    after_first, before_first, contains_seq, replace_char, split_first, trim_end,
    trim_end_matches, underscores_to_spaces,
};

verus! {

/// A step of the schema's history: the script that holds it, the version that orders it
/// among the others, and what it does, in words.
#[derive(Debug)]
pub struct Migration {
    pub file: String,
    pub version: String,
    pub description: String,
}

/// A migration, as mathematical values.
pub ghost struct MigrationView {
    pub file: Seq<char>,
    pub version: Seq<char>,
    pub description: Seq<char>,
}

impl View for Migration {
    type V = MigrationView;

    open spec fn view(&self) -> MigrationView {
        MigrationView { file: self.file@, version: self.version@, description: self.description@ }
    }
}

/// What a script's name says of it. The name is a version, two underscores, and a
/// description; the description ends at two further underscores if there are any, loses
/// the ending `.sql`, and has its underscores read as spaces. A name without two
/// underscores names no migration.
pub open spec fn migration_of(file: Seq<char>) -> Option<MigrationView> {
    if contains_seq(file, "__"@) {
        let token = before_first(after_first(file, "__"@), "__"@);
        Some(
            MigrationView {
                file,
                version: before_first(file, "__"@),
                description: replace_char(trim_end(token, ".sql"@), '_', ' '),
            },
        )
    } else {
        None
    }
}

impl Migration {
    pub fn new(file: String, version: String, description: String) -> (m: Migration)
        ensures
            m@ == (MigrationView { file: file@, version: version@, description: description@ }),
    {
        Migration { file, version, description }
    }

    /// Reads a migration off the name of its script.
    pub fn from_file_name(file: &str) -> (m: Option<Migration>)
        ensures
            m is Some <==> migration_of(file@) is Some,
            m matches Some(found) ==> Some(found@) == migration_of(file@),
    {
        match split_first(file, "__") {
            Some((version, rest)) => {
                let token = match split_first(rest.as_str(), "__") {
                    Some((head, _)) => head,
                    None => rest,
                };
                let bare = trim_end_matches(token.as_str(), ".sql");
                let description = underscores_to_spaces(bare.as_str());
                Some(Migration { file: String::from_str(file), version, description })
            },
            None => None,
        }
    }

    /// The migration in one line: script, version and description.
    pub fn to_text(&self) -> (s: String)
        ensures
            s@ == self@.file + " => "@ + self@.version + " ("@ + self@.description + ")"@,
    {
        let mut s = self.file.clone();
        s.append(" => ");
        s.append(self.version.as_str());
        s.append(" (");
        s.append(self.description.as_str());
        s.append(")");
        s
    }

    /// A copy of this migration.
    pub fn duplicate(&self) -> (m: Migration)
        ensures
            m@ == self@,
    {
        Migration {
            file: self.file.clone(),
            version: self.version.clone(),
            description: self.description.clone(),
        }
    }
}

/// An embedded script: its name and its statements.
#[derive(Debug)]
pub struct Script {
    pub file: String,
    pub body: String,
}

/// A script that is due: the migration that its name stands for, and its statements.
#[derive(Debug)]
pub struct Pending {
    pub migration: Migration,
    pub body: String,
}

/// A due script, as mathematical values.
pub ghost struct PendingView {
    pub migration: MigrationView,
    pub body: Seq<char>,
}

impl View for Pending {
    type V = PendingView;

    open spec fn view(&self) -> PendingView {
        PendingView { migration: self.migration@, body: self.body@ }
    }
}

/// The views of a list of due scripts.
pub open spec fn pending_views(v: Seq<Pending>) -> Seq<PendingView> {
    Seq::new(v.len(), |i: int| v[i]@)
}

/// `e` put into `sorted` behind every entry whose version does not come behind its own.
pub open spec fn insert_by_version(sorted: Seq<PendingView>, e: PendingView) -> Seq<PendingView>
    decreases sorted.len(),
{
    if sorted.len() == 0 {
        seq![e]
    } else if lex_le(sorted.last().migration.version, e.migration.version) {
        sorted.push(e)
    } else {
        insert_by_version(sorted.drop_last(), e).push(sorted.last())
    }
}

/// The scripts among `scripts` that name a migration with a version behind `base`, in the
/// ascending order of their versions; scripts with the same version keep their order.
pub open spec fn due(scripts: Seq<(Seq<char>, Seq<char>)>, base: Seq<char>) -> Seq<PendingView>
    decreases scripts.len(),
{
    if scripts.len() == 0 {
        Seq::<PendingView>::empty()
    } else {
        let before = due(scripts.drop_last(), base);
        match migration_of(scripts.last().0) {
            Some(m) => if lex_lt(base, m.version) {
                insert_by_version(before, PendingView { migration: m, body: scripts.last().1 })
            } else {
                before
            },
            None => before,
        }
    }
}

/// The names and statements of a list of scripts.
pub open spec fn script_views(v: Seq<Script>) -> Seq<(Seq<char>, Seq<char>)> {
    Seq::new(v.len(), |i: int| (v[i].file@, v[i].body@))
}

/// Whether the versions of `s` ascend.
pub open spec fn ascending(s: Seq<PendingView>) -> bool {
    forall|i: int, j: int|
        0 <= i < j < s.len() ==> lex_le(
            (#[trigger] s[i]).migration.version,
            (#[trigger] s[j]).migration.version,
        )
}

/// Where `e` goes in `sorted`: behind `at` entries, of which the last does not come
/// behind `e`, and before entries that all come behind `e`.
pub proof fn lemma_insert_at(sorted: Seq<PendingView>, e: PendingView, at: int)
    requires
        0 <= at <= sorted.len(),
        at > 0 ==> lex_le(sorted[at - 1].migration.version, e.migration.version),
        forall|k: int|
            at <= k < sorted.len() ==> lex_lt(
                e.migration.version,
                (#[trigger] sorted[k]).migration.version,
            ),
    ensures
        insert_by_version(sorted, e) == sorted.insert(at, e),
    decreases sorted.len() - at,
{
    if at == sorted.len() {
        assert(sorted.insert(at, e) =~= sorted.push(e));
        if sorted.len() > 0 {
            assert(sorted.last() == sorted[at - 1]);
        }
    } else {
        let front = sorted.drop_last();
        assert(lex_lt(e.migration.version, sorted[sorted.len() - 1].migration.version));
        if at > 0 {
            assert(front[at - 1] == sorted[at - 1]);
        }
        assert forall|k: int| at <= k < front.len() implies lex_lt(
            e.migration.version,
            (#[trigger] front[k]).migration.version,
        ) by {
            assert(front[k] == sorted[k]);
        }
        lemma_insert_at(front, e, at);
        assert(front.insert(at, e).push(sorted.last()) =~= sorted.insert(at, e));
    }
}

/// An insertion makes no entry but the inserted one.
pub proof fn lemma_insert_adds_one(sorted: Seq<PendingView>, e: PendingView)
    ensures
        forall|k: int|
            0 <= k < insert_by_version(sorted, e).len() ==> (#[trigger] insert_by_version(
                sorted,
                e,
            )[k]) == e || sorted.contains(insert_by_version(sorted, e)[k]),
    decreases sorted.len(),
{
    let after = insert_by_version(sorted, e);
    if sorted.len() == 0 {
    } else if lex_le(sorted.last().migration.version, e.migration.version) {
        assert forall|k: int| 0 <= k < after.len() implies (#[trigger] after[k]) == e
            || sorted.contains(after[k]) by {
            if k < sorted.len() {
                assert(after[k] == sorted[k]);
            }
        }
    } else {
        let front = sorted.drop_last();
        let inner = insert_by_version(front, e);
        lemma_insert_adds_one(front, e);
        assert forall|k: int| 0 <= k < after.len() implies (#[trigger] after[k]) == e
            || sorted.contains(after[k]) by {
            if k < inner.len() {
                assert(after[k] == inner[k]);
                if inner[k] != e {
                    let i = choose|i: int| 0 <= i < front.len() && front[i] == inner[k];
                    assert(sorted[i] == front[i]);
                }
            } else {
                assert(after[k] == sorted[sorted.len() - 1]);
            }
        }
    }
}

/// An insertion into ascending versions leaves them ascending.
pub proof fn lemma_insert_ascends(sorted: Seq<PendingView>, e: PendingView)
    requires
        ascending(sorted),
    ensures
        ascending(insert_by_version(sorted, e)),
    decreases sorted.len(),
{
    let after = insert_by_version(sorted, e);
    let v = e.migration.version;
    if sorted.len() == 0 {
    } else if lex_le(sorted.last().migration.version, v) {
        assert forall|i: int, j: int| 0 <= i < j < after.len() implies lex_le(
            (#[trigger] after[i]).migration.version,
            (#[trigger] after[j]).migration.version,
        ) by {
            assert(after[i] == sorted[i]);
            if j < sorted.len() {
                assert(after[j] == sorted[j]);
            } else {
                let x = sorted[i].migration.version;
                let top = sorted[sorted.len() - 1].migration.version;
                if i < sorted.len() - 1 {
                    assert(lex_le(x, top));
                } else {
                    lemma_lex_irreflexive(top);
                }
                if lex_lt(v, x) {
                    lemma_lex_lt_le(v, x, top);
                }
            }
        }
    } else {
        let front = sorted.drop_last();
        let inner = insert_by_version(front, e);
        let top = sorted[sorted.len() - 1].migration.version;
        assert(ascending(front)) by {
            assert forall|i: int, j: int| 0 <= i < j < front.len() implies lex_le(
                (#[trigger] front[i]).migration.version,
                (#[trigger] front[j]).migration.version,
            ) by {
                assert(front[i] == sorted[i]);
                assert(front[j] == sorted[j]);
            }
        }
        lemma_insert_ascends(front, e);
        lemma_insert_adds_one(front, e);
        lemma_lex_total(v, top);
        assert forall|i: int, j: int| 0 <= i < j < after.len() implies lex_le(
            (#[trigger] after[i]).migration.version,
            (#[trigger] after[j]).migration.version,
        ) by {
            assert(after[i] == inner[i]);
            if j < inner.len() {
                assert(after[j] == inner[j]);
            } else {
                assert(after[j] == sorted[sorted.len() - 1]);
                if inner[i] != e {
                    let k = choose|k: int| 0 <= k < front.len() && front[k] == inner[i];
                    assert(sorted[k] == front[k]);
                    assert(lex_le(sorted[k].migration.version, top));
                }
            }
        }
    }
}

/// The due scripts stand with their versions ascending.
pub proof fn lemma_due_ascends(scripts: Seq<(Seq<char>, Seq<char>)>, base: Seq<char>)
    ensures
        ascending(due(scripts, base)),
    decreases scripts.len(),
{
    if scripts.len() > 0 {
        lemma_due_ascends(scripts.drop_last(), base);
        match migration_of(scripts.last().0) {
            Some(m) => {
                if lex_lt(base, m.version) {
                    lemma_insert_ascends(
                        due(scripts.drop_last(), base),
                        PendingView { migration: m, body: scripts.last().1 },
                    );
                }
            },
            None => {},
        }
    }
}

/// The scripts that are due behind the version `base`, in the order in which they are to
/// run: with their versions ascending.
pub fn pending_scripts(scripts: &Vec<Script>, base: &str) -> (out: Vec<Pending>)
    ensures
        pending_views(out@) == due(script_views(scripts@), base@),
        ascending(pending_views(out@)),
{
    proof {
        lemma_due_ascends(script_views(scripts@), base@);
    }
    let mut out: Vec<Pending> = Vec::new();
    let ghost all = script_views(scripts@);
    let mut i: usize = 0;
    proof {
        assert(all.take(0) =~= Seq::empty());
        assert(pending_views(out@) =~= Seq::<PendingView>::empty());
    }
    while i < scripts.len()
        invariant
            i <= scripts.len(),
            all == script_views(scripts@),
            pending_views(out@) == due(all.take(i as int), base@),
        decreases scripts.len() - i,
    {
        proof {
            let upto = all.take(i as int + 1);
            assert(upto.drop_last() =~= all.take(i as int));
            assert(upto.last() == (scripts@[i as int].file@, scripts@[i as int].body@));
        }
        match Migration::from_file_name(scripts[i].file.as_str()) {
            Some(m) => {
                if str_lt(base, m.version.as_str()) {
                    let e = Pending { migration: m, body: scripts[i].body.clone() };
                    let ghost sorted = pending_views(out@);
                    let mut at: usize = out.len();
                    while at > 0 && str_lt(
                        e.migration.version.as_str(),
                        out[at - 1].migration.version.as_str(),
                    )
                        invariant
                            at <= out.len(),
                            sorted == pending_views(out@),
                            forall|k: int|
                                at <= k < sorted.len() ==> lex_lt(
                                    e@.migration.version,
                                    (#[trigger] sorted[k]).migration.version,
                                ),
                        decreases at,
                    {
                        at = at - 1;
                    }
                    proof {
                        lemma_insert_at(sorted, e@, at as int);
                    }
                    let ghost ev = e@;
                    out.insert(at, e);
                    proof {
                        assert(pending_views(out@) =~= sorted.insert(at as int, ev));
                    }
                }
            },
            None => {},
        }
        i = i + 1;
    }
    proof {
        assert(all.take(scripts@.len() as int) =~= all);
    }
    out
}

/// The statement that records a migration in the ledger, between blank lines.
pub open spec fn ledger_insert(m: MigrationView, app_semver: Seq<char>) -> Seq<char> {
    "\n\nINSERT INTO migrations(version, description, script, app_semver) VALUES ('"@
        + m.version + "', '"@ + m.description + "', '"@ + m.file + "', '"@ + app_semver
        + "');\n\n"@
}

/// The statements of the due scripts, each followed by the statement that records it.
pub open spec fn script_text(pending: Seq<PendingView>, app_semver: Seq<char>) -> Seq<char>
    decreases pending.len(),
{
    if pending.len() == 0 {
        Seq::<char>::empty()
    } else {
        script_text(pending.drop_last(), app_semver) + pending.last().body + ledger_insert(
            pending.last().migration,
            app_semver,
        )
    }
}

/// The batch that brings the schema up to date: the statements of the due scripts and of
/// their ledger entries inside one transaction. `None` where no script is due.
pub open spec fn migration_batch(pending: Seq<PendingView>, app_semver: Seq<char>) -> Option<
    Seq<char>,
> {
    if pending.len() == 0 {
        None
    } else {
        Some("BEGIN TRANSACTION;\n\n"@ + script_text(pending, app_semver) + "\n\nCOMMIT;"@)
    }
}

/// Composes the batch that brings a schema at version `base_version` up to date, to be run
/// as one transaction by the application of version `app_semver`. The scripts behind
/// `base_version` run in the ascending order of their versions, and each records itself
/// in the ledger. `None` where no script is due.
pub fn build_migration(scripts: &Vec<Script>, base_version: &str, app_semver: &str) -> (batch:
    Option<String>)
    ensures
        batch is Some <==> due(script_views(scripts@), base_version@).len() > 0,
        match batch {
            Some(text) => Some(text@) == migration_batch(
                due(script_views(scripts@), base_version@),
                app_semver@,
            ),
            None => true,
        },
{
    let pending = pending_scripts(scripts, base_version);
    let ghost views = pending_views(pending@);
    if pending.len() == 0 {
        return None;
    }
    let mut text = String::from_str("BEGIN TRANSACTION;\n\n");
    let ghost mut body: Seq<char> = Seq::empty();
    let mut i: usize = 0;
    proof {
        assert(views.take(0) =~= Seq::empty());
        assert(text@ =~= "BEGIN TRANSACTION;\n\n"@ + body);
    }
    while i < pending.len()
        invariant
            i <= pending.len(),
            views == pending_views(pending@),
            body == script_text(views.take(i as int), app_semver@),
            text@ == "BEGIN TRANSACTION;\n\n"@ + body,
        decreases pending.len() - i,
    {
        let m = &pending[i].migration;
        proof {
            let upto = views.take(i as int + 1);
            assert(upto.drop_last() =~= views.take(i as int));
            assert(upto.last() == pending@[i as int]@);
        }
        let ghost had = text@;
        text.append(pending[i].body.as_str());
        text.append(
            "\n\nINSERT INTO migrations(version, description, script, app_semver) VALUES ('",
        );
        text.append(m.version.as_str());
        text.append("', '");
        text.append(m.description.as_str());
        text.append("', '");
        text.append(m.file.as_str());
        text.append("', '");
        text.append(app_semver);
        text.append("');\n\n");
        proof {
            let piece = pending@[i as int]@.body + ledger_insert(m@, app_semver@);
            assert(text@ =~= had + piece);
            assert(had + piece =~= "BEGIN TRANSACTION;\n\n"@ + (body + pending@[i as int]@.body
                + ledger_insert(m@, app_semver@)));
            body = body + pending@[i as int]@.body + ledger_insert(m@, app_semver@);
        }
        i = i + 1;
    }
    proof {
        assert(views.take(pending@.len() as int) =~= views);
    }
    text.append("\n\nCOMMIT;");
    Some(text)
}

/// What the ledger says of the schema: the version of the newest script that was applied,
/// and the version of the application that applied it.
#[derive(Debug)]
pub struct SchemaState {
    pub version: String,
    pub app_semver: String,
}

/// The schema version of a store whose ledger is empty.
pub const NO_SCRIPT: &'static str = "";

/// The application version of a store whose ledger is empty.
pub const NO_APP: &'static str = "0.0.0";

/// What opening a store comes to, given how the application version in the ledger stands
/// to the running one. A ledger written by a newer application, or one whose version
/// cannot be read, stops everything; a ledger written by an older application has the due
/// scripts applied; a ledger written by this application needs nothing.
pub open spec fn open_plan(
    precedence: Option<Precedence>,
    scripts: Seq<(Seq<char>, Seq<char>)>,
    base: Seq<char>,
    app_semver: Seq<char>,
) -> Result<Option<Seq<char>>, DBError> {
    match precedence {
        Some(Precedence::Older) => Ok(migration_batch(due(scripts, base), app_semver)),
        Some(Precedence::Same) => Ok(None),
        Some(Precedence::Newer) => Err(DBError::FatalSchema),
        None => Err(DBError::FatalSchema),
    }
}

/// The view of an optional text.
pub open spec fn text_view(t: Option<String>) -> Option<Seq<char>> {
    match t {
        Some(s) => Some(s@),
        None => None,
    }
}

/// Decides what opening a store does. `precedence` says how the application version in
/// the ledger stands to the running one, `base_version` is the schema version in the
/// ledger. The answer is the batch to run, `None` where there is nothing to run, or
/// `FatalSchema` where the store must not be opened.
pub fn decide_open(
    precedence: Option<Precedence>,
    scripts: &Vec<Script>,
    base_version: &str,
    app_semver: &str,
) -> (r: DBResult<Option<String>>)
    ensures
        r is Ok <==> (precedence == Some(Precedence::Older) || precedence == Some(
            Precedence::Same,
        )),
        r matches Err(e) ==> e == DBError::FatalSchema,
        match r {
            Ok(batch) => Ok::<Option<Seq<char>>, DBError>(text_view(batch)) == open_plan(
                precedence,
                script_views(scripts@),
                base_version@,
                app_semver@,
            ),
            Err(e) => Err::<Option<Seq<char>>, DBError>(e) == open_plan(
                precedence,
                script_views(scripts@),
                base_version@,
                app_semver@,
            ),
        },
{
    match precedence {
        Some(Precedence::Older) => Ok(build_migration(scripts, base_version, app_semver)),
        Some(Precedence::Same) => Ok(None),
        Some(Precedence::Newer) => Err(DBError::FatalSchema),
        None => Err(DBError::FatalSchema),
    }
}

/// The schema version that the ledger stands for; the empty version for an empty ledger.
pub open spec fn base_of(last: Option<SchemaState>) -> Seq<char> {
    match last {
        Some(state) => state.version@,
        None => NO_SCRIPT@,
    }
}

/// The application version that the ledger stands for; `0.0.0` for an empty ledger.
pub open spec fn app_of(last: Option<SchemaState>) -> Seq<char> {
    match last {
        Some(state) => state.app_semver@,
        None => NO_APP@,
    }
}

/// How the application version `a` stands to the application version `b`. A text of more
/// than 255 characters is not read as a version.
pub open spec fn app_precedence(a: Seq<char>, b: Seq<char>) -> Option<Precedence> {
    if a.len() <= MAX_SEMVER_LEN && b.len() <= MAX_SEMVER_LEN {
        semver_precedence(a, b)
    } else {
        None
    }
}

/// How the application version `a` stands to the application version `b`.
pub fn compare_app_versions(a: &str, b: &str) -> (r: Option<Precedence>)
    ensures
        r == app_precedence(a@, b@),
        a@ == b@ ==> r is None || r == Some(Precedence::Same),
{
    if a.unicode_len() <= MAX_SEMVER_LEN && b.unicode_len() <= MAX_SEMVER_LEN {
        semver_order(a, b)
    } else {
        None
    }
}

/// Plans the opening of a store by the application of version `app_semver`. `last` is the
/// newest entry of the ledger, `None` where the ledger is empty. The two application
/// versions are compared as semantic versions, and [`decide_open`] does the rest. Where
/// the newest entry was written by this very version, as it is after an opening that
/// applied a script, there is nothing to run.
pub fn plan_open(last: &Option<SchemaState>, scripts: &Vec<Script>, app_semver: &str) -> (r:
    DBResult<Option<String>>)
    ensures
        last matches Some(state) && state.app_semver@ == app_semver@ ==> r is Err || r matches Ok(
            None,
        ),
        match r {
            Ok(batch) => Ok::<Option<Seq<char>>, DBError>(text_view(batch)) == open_plan(
                app_precedence(app_of(*last), app_semver@),
                script_views(scripts@),
                base_of(*last),
                app_semver@,
            ),
            Err(e) => Err::<Option<Seq<char>>, DBError>(e) == open_plan(
                app_precedence(app_of(*last), app_semver@),
                script_views(scripts@),
                base_of(*last),
                app_semver@,
            ),
        },
{
    match last {
        Some(state) => {
            let precedence = compare_app_versions(state.app_semver.as_str(), app_semver);
            decide_open(precedence, scripts, state.version.as_str(), app_semver)
        },
        None => {
            let precedence = compare_app_versions(NO_APP, app_semver);
            decide_open(precedence, scripts, NO_SCRIPT, app_semver)
        },
    }
}

/// An entry of the ledger: what was applied, and by which application version.
pub ghost struct LedgerRow {
    pub version: Seq<char>,
    pub description: Seq<char>,
    pub script: Seq<char>,
    pub app_semver: Seq<char>,
}

/// The schema version of a ledger: the greatest version among its entries, the empty
/// version where it has none.
pub open spec fn top_version(ledger: Seq<LedgerRow>) -> Seq<char>
    decreases ledger.len(),
{
    if ledger.len() == 0 {
        Seq::<char>::empty()
    } else {
        let before = top_version(ledger.drop_last());
        if lex_lt(before, ledger.last().version) {
            ledger.last().version
        } else {
            before
        }
    }
}

/// The entries that a batch adds to the ledger: one for each due script, in their order.
pub open spec fn recorded(pending: Seq<PendingView>, app_semver: Seq<char>) -> Seq<LedgerRow> {
    Seq::new(
        pending.len(),
        |i: int|
            LedgerRow {
                version: pending[i].migration.version,
                description: pending[i].migration.description,
                script: pending[i].migration.file,
                app_semver,
            },
    )
}

/// The ledger after a store with this ledger has been opened: the due scripts are recorded
/// where the ledger was written by an older application, and nothing changes otherwise.
pub open spec fn ledger_after_open(
    ledger: Seq<LedgerRow>,
    precedence: Option<Precedence>,
    scripts: Seq<(Seq<char>, Seq<char>)>,
    app_semver: Seq<char>,
) -> Seq<LedgerRow> {
    if precedence == Some(Precedence::Older) {
        ledger + recorded(due(scripts, top_version(ledger)), app_semver)
    } else {
        ledger
    }
}

/// No entry of a ledger has a version behind the ledger's schema version.
pub proof fn lemma_top_version_bounds(ledger: Seq<LedgerRow>)
    ensures
        forall|i: int|
            0 <= i < ledger.len() ==> lex_le((#[trigger] ledger[i]).version, top_version(ledger)),
    decreases ledger.len(),
{
    if ledger.len() > 0 {
        let front = ledger.drop_last();
        lemma_top_version_bounds(front);
        let before = top_version(front);
        let top = top_version(ledger);
        assert forall|i: int| 0 <= i < ledger.len() implies lex_le(
            (#[trigger] ledger[i]).version,
            top,
        ) by {
            if i < front.len() {
                assert(front[i] == ledger[i]);
                if lex_lt(before, ledger.last().version) && lex_lt(top, ledger[i].version) {
                    lemma_lex_le_lt(ledger[i].version, before, top);
                    lemma_lex_total(top, ledger[i].version);
                }
            } else {
                lemma_lex_irreflexive(ledger.last().version);
            }
        }
    }
}

/// New entries never lower the schema version.
pub proof fn lemma_top_version_grows(ledger: Seq<LedgerRow>, more: Seq<LedgerRow>)
    ensures
        lex_le(top_version(ledger), top_version(ledger + more)),
    decreases more.len(),
{
    if more.len() == 0 {
        assert(ledger + more =~= ledger);
        lemma_lex_irreflexive(top_version(ledger));
    } else {
        let whole = ledger + more;
        assert(whole.drop_last() =~= ledger + more.drop_last());
        lemma_top_version_grows(ledger, more.drop_last());
        let before = top_version(whole.drop_last());
        if lex_lt(before, whole.last().version) && lex_lt(
            whole.last().version,
            top_version(ledger),
        ) {
            lemma_lex_le_lt(top_version(ledger), before, whole.last().version);
            lemma_lex_total(top_version(ledger), whole.last().version);
        }
    }
}

/// What is inserted is there, and so is all that was there.
pub proof fn lemma_insert_keeps(sorted: Seq<PendingView>, e: PendingView)
    ensures
        insert_by_version(sorted, e).len() == sorted.len() + 1,
        insert_by_version(sorted, e).contains(e),
        forall|i: int|
            0 <= i < sorted.len() ==> insert_by_version(sorted, e).contains(#[trigger] sorted[i]),
    decreases sorted.len(),
{
    let after = insert_by_version(sorted, e);
    if sorted.len() == 0 {
        assert(after[0] == e);
    } else if lex_le(sorted.last().migration.version, e.migration.version) {
        assert(after[sorted.len() as int] == e);
        assert forall|i: int| 0 <= i < sorted.len() implies after.contains(
            #[trigger] sorted[i],
        ) by {
            assert(after[i] == sorted[i]);
        }
    } else {
        let front = sorted.drop_last();
        let inner = insert_by_version(front, e);
        lemma_insert_keeps(front, e);
        let k = choose|k: int| 0 <= k < inner.len() && inner[k] == e;
        assert(after[k] == e);
        assert forall|i: int| 0 <= i < sorted.len() implies after.contains(
            #[trigger] sorted[i],
        ) by {
            if i < front.len() {
                assert(front[i] == sorted[i]);
                let j = choose|j: int| 0 <= j < inner.len() && inner[j] == front[i];
                assert(after[j] == sorted[i]);
            } else {
                assert(after[inner.len() as int] == sorted[i]);
            }
        }
    }
}

/// Every script that names a migration behind `base` is due.
pub proof fn lemma_due_holds_newer(scripts: Seq<(Seq<char>, Seq<char>)>, base: Seq<char>, k: int)
    requires
        0 <= k < scripts.len(),
        migration_of(scripts[k].0) is Some,
        lex_lt(base, migration_of(scripts[k].0)->Some_0.version),
    ensures
        due(scripts, base).contains(
            PendingView { migration: migration_of(scripts[k].0)->Some_0, body: scripts[k].1 },
        ),
    decreases scripts.len(),
{
    let front = scripts.drop_last();
    let before = due(front, base);
    let wanted = PendingView { migration: migration_of(scripts[k].0)->Some_0, body: scripts[k].1 };
    if k == scripts.len() - 1 {
        lemma_insert_keeps(before, wanted);
    } else {
        assert(front[k] == scripts[k]);
        lemma_due_holds_newer(front, base, k);
        let j = choose|j: int| 0 <= j < before.len() && before[j] == wanted;
        match migration_of(scripts.last().0) {
            Some(m) => {
                if lex_lt(base, m.version) {
                    lemma_insert_keeps(
                        before,
                        PendingView { migration: m, body: scripts.last().1 },
                    );
                    assert(before[j] == wanted);
                }
            },
            None => {},
        }
    }
}

/// Where no script names a migration behind `base`, nothing is due.
pub proof fn lemma_nothing_due(scripts: Seq<(Seq<char>, Seq<char>)>, base: Seq<char>)
    requires
        forall|k: int|
            0 <= k < scripts.len() && migration_of((#[trigger] scripts[k]).0) is Some ==> !lex_lt(
                base,
                migration_of(scripts[k].0)->Some_0.version,
            ),
    ensures
        due(scripts, base).len() == 0,
    decreases scripts.len(),
{
    if scripts.len() > 0 {
        let front = scripts.drop_last();
        assert forall|k: int|
            0 <= k < front.len() && migration_of((#[trigger] front[k]).0) is Some implies !lex_lt(
            base,
            migration_of(front[k].0)->Some_0.version,
        ) by {
            assert(front[k] == scripts[k]);
        }
        lemma_nothing_due(front, base);
        assert(scripts[scripts.len() - 1] == scripts.last());
    }
}

/// Opening is idempotent. After a store has been opened, with whatever outcome of the
/// comparison of application versions, no script is due any more: a second opening
/// applies nothing, however its own comparison comes out.
pub proof fn lemma_open_twice_applies_nothing(
    ledger: Seq<LedgerRow>,
    first: Option<Precedence>,
    second: Option<Precedence>,
    scripts: Seq<(Seq<char>, Seq<char>)>,
    app_semver: Seq<char>,
)
    requires
        first == Some(Precedence::Older) || first == Some(Precedence::Same),
        second == Some(Precedence::Older) ==> first == Some(Precedence::Older),
    ensures
        ({
            let once = ledger_after_open(ledger, first, scripts, app_semver);
            ledger_after_open(once, second, scripts, app_semver) == once
        }),
{
    let once = ledger_after_open(ledger, first, scripts, app_semver);
    if second == Some(Precedence::Older) {
        let base = top_version(ledger);
        let applied = due(scripts, base);
        let rows = recorded(applied, app_semver);
        let top = top_version(once);
        lemma_top_version_bounds(once);
        lemma_top_version_grows(ledger, rows);
        assert forall|k: int|
            0 <= k < scripts.len() && migration_of((#[trigger] scripts[k]).0) is Some implies !lex_lt(
            top,
            migration_of(scripts[k].0)->Some_0.version,
        ) by {
            let m = migration_of(scripts[k].0)->Some_0;
            if lex_lt(top, m.version) {
                if lex_lt(base, m.version) {
                    lemma_due_holds_newer(scripts, base, k);
                    let wanted = PendingView { migration: m, body: scripts[k].1 };
                    let j = choose|j: int| 0 <= j < applied.len() && applied[j] == wanted;
                    assert(once[ledger.len() + j] == rows[j]);
                    assert(rows[j].version == m.version);
                    assert(lex_le(once[ledger.len() + j].version, top));
                } else {
                    lemma_lex_le_lt(base, top, m.version);
                }
            }
        }
        lemma_nothing_due(scripts, top);
        assert(recorded(due(scripts, top), app_semver) =~= Seq::<LedgerRow>::empty());
        assert(once + Seq::<LedgerRow>::empty() =~= once);
    }
}

/// The downgrade guard. Where the ledger was written by a newer application than the
/// running one, opening fails with `FatalSchema`, there is no batch to run, and the ledger
/// stays as it is.
pub proof fn lemma_newer_schema_is_refused(
    ledger: Seq<LedgerRow>,
    scripts: Seq<(Seq<char>, Seq<char>)>,
    base: Seq<char>,
    app_semver: Seq<char>,
)
    ensures
        open_plan(Some(Precedence::Newer), scripts, base, app_semver) == Err::<
            Option<Seq<char>>,
            DBError,
        >(DBError::FatalSchema),
        ledger_after_open(ledger, Some(Precedence::Newer), scripts, app_semver) == ledger,
{
}

} // verus!
