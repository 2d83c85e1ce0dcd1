//! Domain contracts shared by every adapter: crew identities, per-leader model
//! assignments, the crew manifest and its validation.

use vstd::prelude::*;

use crate::text::{blank, is_blank, trim, trim_text};

verus! {

/// A crew member's identifier.
#[derive(Debug, PartialEq, Eq, Hash)]
pub struct CrewId(pub String);

impl Clone for CrewId {
    fn clone(&self) -> (r: Self)
        ensures
            r == *self,
    {
        CrewId(self.0.clone())
    }
}

impl CrewId {
    pub fn new(value: &str) -> (r: Self)
        ensures
            r.0@ == value@,
    {
        CrewId(value.to_owned())
    }
}

/// A model assignment as the contracts see it.
pub struct ModelView {
    pub provider: Seq<char>,
    pub model: Seq<char>,
    pub endpoint: Option<Seq<char>>,
}

/// One provider/model pair assigned to a team leader.
#[derive(Debug, PartialEq)]
pub struct ModelAssignment {
    /// Adapter name, such as `openai`, `anthropic`, or `local`.
    pub provider: String,
    /// Provider-specific model identifier.
    pub model: String,
    /// Optional provider endpoint override for gateways and local runtimes.
    pub endpoint: Option<String>,
}

impl View for ModelAssignment {
    type V = ModelView;

    open spec fn view(&self) -> ModelView {
        ModelView {
            provider: self.provider@,
            model: self.model@,
            endpoint: match self.endpoint {
                Some(e) => Some(e@),
                None => None,
            },
        }
    }
}

impl Clone for ModelAssignment {
    fn clone(&self) -> (r: Self)
        ensures
            r == *self,
    {
        let endpoint = match &self.endpoint {
            Some(e) => Some(e.clone()),
            None => None,
        };
        ModelAssignment { provider: self.provider.clone(), model: self.model.clone(), endpoint }
    }
}

/// The text `provider / model` that names an assignment.
pub open spec fn label_of(m: ModelView) -> Seq<char> {
    m.provider + " / "@ + m.model
}

impl ModelAssignment {
    pub fn new(provider: &str, model: &str) -> (r: Self)
        ensures
            r@ == (ModelView { provider: provider@, model: model@, endpoint: None }),
    {
        ModelAssignment { provider: provider.to_owned(), model: model.to_owned(), endpoint: None }
    }

    pub fn label(&self) -> (r: String)
        ensures
            r@ == label_of(self@),
    {
        let mut r = self.provider.clone();
        r.append(" / ");
        r.append(self.model.as_str());
        r
    }
}

/// A team leader as the contracts see it.
pub struct LeaderView {
    pub id: Seq<char>,
    pub display_name: Seq<char>,
    pub professional_role: Seq<char>,
    pub department: Seq<char>,
    pub model: ModelView,
}

/// A department head with an independent model assignment.
#[derive(Debug, PartialEq)]
pub struct TeamLeader {
    pub id: CrewId,
    pub display_name: String,
    pub professional_role: String,
    pub department: String,
    pub model: ModelAssignment,
}

impl View for TeamLeader {
    type V = LeaderView;

    open spec fn view(&self) -> LeaderView {
        LeaderView {
            id: self.id.0@,
            display_name: self.display_name@,
            professional_role: self.professional_role@,
            department: self.department@,
            model: self.model@,
        }
    }
}

impl Clone for TeamLeader {
    fn clone(&self) -> (r: Self)
        ensures
            r == *self,
    {
        TeamLeader {
            id: self.id.clone(),
            display_name: self.display_name.clone(),
            professional_role: self.professional_role.clone(),
            department: self.department.clone(),
            model: self.model.clone(),
        }
    }
}

/// The crew: every team leader, in order.
#[derive(Debug, Default, PartialEq)]
pub struct CrewManifest {
    pub leaders: Vec<TeamLeader>,
}

impl View for CrewManifest {
    type V = Seq<LeaderView>;

    open spec fn view(&self) -> Seq<LeaderView> {
        self.leaders@.map_values(|l: TeamLeader| l@)
    }
}

impl Clone for CrewManifest {
    fn clone(&self) -> (r: Self)
        ensures
            r@ == self@,
    {
        let mut leaders: Vec<TeamLeader> = Vec::new();
        let n = self.leaders.len();
        let mut i: usize = 0;
        while i < n
            invariant
                i <= n == self.leaders@.len(),
                leaders@ == self.leaders@.take(i as int),
            decreases n - i,
        {
            leaders.push(self.leaders[i].clone());
            i = i + 1;
            assert(leaders@ =~= self.leaders@.take(i as int));
        }
        assert(leaders@ =~= self.leaders@);
        let r = CrewManifest { leaders };
        assert(r@ =~= self@);
        r
    }
}

/// A problem that validation reports, as the contracts see it.
pub enum ManifestProblem {
    DuplicateCrewId(Seq<char>),
    EmptyField { crew_id: Seq<char>, field: Seq<char> },
}

/// Why a crew manifest is not valid.
#[derive(Debug, PartialEq, Eq)]
pub enum ManifestError {
    DuplicateCrewId(String),
    EmptyField { crew_id: String, field: &'static str },
}

impl View for ManifestError {
    type V = ManifestProblem;

    open spec fn view(&self) -> ManifestProblem {
        match self {
            ManifestError::DuplicateCrewId(id) => ManifestProblem::DuplicateCrewId(id@),
            ManifestError::EmptyField { crew_id, field } => ManifestProblem::EmptyField {
                crew_id: crew_id@,
                field: field@,
            },
        }
    }
}

/// The text a manifest problem is reported with.
pub open spec fn manifest_problem_text(p: ManifestProblem) -> Seq<char> {
    match p {
        ManifestProblem::DuplicateCrewId(id) => "duplicate crew id: "@ + id,
        ManifestProblem::EmptyField { crew_id, field } => crew_id + " has an empty "@ + field,
    }
}

impl ManifestError {
    /// The human-readable report of this error.
    pub fn message(&self) -> (r: String)
        ensures
            r@ == manifest_problem_text(self@),
    {
        match self {
            ManifestError::DuplicateCrewId(id) => {
                let mut r = String::from_str("duplicate crew id: ");
                r.append(id.as_str());
                r
            },
            ManifestError::EmptyField { crew_id, field } => {
                let mut r = crew_id.clone();
                r.append(" has an empty ");
                r.append(field);
                r
            },
        }
    }
}

/// The first of a leader's descriptive fields that is blank, by its name.
pub open spec fn first_blank_field(l: LeaderView) -> Option<Seq<char>> {
    if is_blank(l.display_name) {
        Some("display_name"@)
    } else if is_blank(l.professional_role) {
        Some("professional_role"@)
    } else if is_blank(l.department) {
        Some("department"@)
    } else if is_blank(l.model.provider) {
        Some("model.provider"@)
    } else if is_blank(l.model.model) {
        Some("model.model"@)
    } else {
        None
    }
}

/// What is wrong with leader `i`, judged against the leaders before it: a
/// blank id, an id that (trimmed) repeats an earlier one, or a blank field.
pub open spec fn leader_problem(ls: Seq<LeaderView>, i: int) -> Option<ManifestProblem> {
    let id = trim(ls[i].id);
    if id.len() == 0 {
        Some(ManifestProblem::EmptyField { crew_id: "<unknown>"@, field: "id"@ })
    } else if exists|j: int| 0 <= j < i && trim(#[trigger] ls[j].id) == id {
        Some(ManifestProblem::DuplicateCrewId(id))
    } else {
        match first_blank_field(ls[i]) {
            Some(f) => Some(ManifestProblem::EmptyField { crew_id: id, field: f }),
            None => None,
        }
    }
}

/// A manifest is valid when no leader has a problem.
pub open spec fn manifest_valid(ls: Seq<LeaderView>) -> bool {
    forall|i: int| 0 <= i < ls.len() ==> leader_problem(ls, i) is None
}

/// Leader `i` is the first leader whose id equals `id` exactly.
pub open spec fn is_first_leader(ls: Seq<LeaderView>, id: Seq<char>, i: int) -> bool {
    &&& 0 <= i < ls.len()
    &&& ls[i].id == id
    &&& forall|j: int| 0 <= j < i ==> ls[j].id != id
}

/// The position of the first leader whose id equals `id`, if any.
pub open spec fn leader_position(ls: Seq<LeaderView>, id: Seq<char>) -> Option<int> {
    if exists|i: int| is_first_leader(ls, id, i) {
        Some(choose|i: int| is_first_leader(ls, id, i))
    } else {
        None
    }
}

/// There is at most one first leader with a given id.
pub proof fn lemma_first_leader_unique(ls: Seq<LeaderView>, id: Seq<char>, i: int, k: int)
    requires
        is_first_leader(ls, id, i),
        is_first_leader(ls, id, k),
    ensures
        i == k,
{
}

/// `leader_position` finds exactly the first match, and none when no leader
/// carries the id.
pub proof fn lemma_leader_position(ls: Seq<LeaderView>, id: Seq<char>)
    ensures
        match leader_position(ls, id) {
            Some(i) => is_first_leader(ls, id, i),
            None => forall|i: int| 0 <= i < ls.len() ==> ls[i].id != id,
        },
{
    if !(exists|i: int| is_first_leader(ls, id, i)) {
        assert forall|i: int| 0 <= i < ls.len() implies ls[i].id != id by {
            if ls[i].id == id {
                lemma_earliest_match(ls, id, i);
            }
        }
    }
}

proof fn lemma_earliest_match(ls: Seq<LeaderView>, id: Seq<char>, i: int)
    requires
        0 <= i < ls.len(),
        ls[i].id == id,
    ensures
        exists|k: int| is_first_leader(ls, id, k),
    decreases i,
{
    if forall|j: int| 0 <= j < i ==> ls[j].id != id {
        assert(is_first_leader(ls, id, i));
    } else {
        let j = choose|j: int| 0 <= j < i && ls[j].id == id;
        lemma_earliest_match(ls, id, j);
    }
}

/// Why a model assignment was refused.
#[derive(Debug, PartialEq, Eq)]
pub enum AssignModelError {
    UnknownLeader(String),
    InvalidModel,
}

/// The text a refused assignment is reported with.
pub open spec fn assign_error_text(e: AssignModelError) -> Seq<char> {
    match e {
        AssignModelError::UnknownLeader(id) => "unknown team leader: "@ + id@,
        AssignModelError::InvalidModel => "provider and model must not be empty"@,
    }
}

impl AssignModelError {
    /// The human-readable report of this error.
    pub fn message(&self) -> (r: String)
        ensures
            r@ == assign_error_text(*self),
    {
        match self {
            AssignModelError::UnknownLeader(id) => {
                let mut r = String::from_str("unknown team leader: ");
                r.append(id.as_str());
                r
            },
            AssignModelError::InvalidModel => String::from_str("provider and model must not be empty"),
        }
    }
}

/// Leader `l` with its model assignment replaced by `m`.
pub open spec fn with_model(l: LeaderView, m: ModelView) -> LeaderView {
    LeaderView { model: m, ..l }
}

/// What assigning `m` to the leader with id `id` gives: the new crew, or the
/// report of the refusal.
pub open spec fn assignment(ls: Seq<LeaderView>, id: Seq<char>, m: ModelView) -> Result<
    Seq<LeaderView>,
    Seq<char>,
> {
    if is_blank(m.provider) || is_blank(m.model) {
        Err("provider and model must not be empty"@)
    } else {
        match leader_position(ls, id) {
            Some(i) => Ok(ls.update(i, with_model(ls[i], m))),
            None => Err("unknown team leader: "@ + id),
        }
    }
}

impl CrewManifest {
    /// Checks every leader in order and reports the first problem found.
    pub fn validate(&self) -> (r: Result<(), ManifestError>)
        ensures
            r is Ok <==> manifest_valid(self@),
            match r {
                Ok(()) => manifest_valid(self@),
                Err(e) => exists|i: int|
                    0 <= i < self@.len() && leader_problem(self@, i) == Some(e@) && forall|j: int|
                        0 <= j < i ==> leader_problem(self@, j) is None,
            },
    {
        let ghost ls = self@;
        let n = self.leaders.len();
        let mut ids: Vec<String> = Vec::new();
        let mut i: usize = 0;
        while i < n
            invariant
                ls == self@,
                i <= n == ls.len() == self.leaders@.len(),
                ids@.len() == i,
                forall|j: int| 0 <= j < i ==> (#[trigger] ids@[j])@ == trim(ls[j].id),
                forall|j: int| 0 <= j < i ==> leader_problem(ls, j) is None,
            decreases n - i,
        {
            let leader = &self.leaders[i];
            assert(leader@ == ls[i as int]);
            let id = trim_text(leader.id.0.as_str());
            if id.unicode_len() == 0 {
                let e = ManifestError::EmptyField { crew_id: String::from_str("<unknown>"), field: "id" };
                assert(leader_problem(ls, i as int) == Some(e@));
                return Err(e);
            }
            let mut k: usize = 0;
            while k < i
                invariant
                    k <= i <= ids@.len(),
                    i < n == ls.len(),
                    ls == self@,
                    forall|j: int| 0 <= j < i ==> leader_problem(ls, j) is None,
                    id@ == trim(ls[i as int].id),
                    id@.len() != 0,
                    forall|j: int| 0 <= j < i ==> (#[trigger] ids@[j])@ == trim(ls[j].id),
                    forall|j: int| 0 <= j < k ==> ids@[j]@ != id@,
                decreases i - k,
            {
                if ids[k] == id {
                    proof {
                        assert(ids@[k as int]@ == trim(ls[k as int].id));
                        assert(exists|j: int| 0 <= j < i && trim(#[trigger] ls[j].id) == id@);
                    }
                    let e = ManifestError::DuplicateCrewId(id);
                    assert(leader_problem(ls, i as int) == Some(e@));
                    return Err(e);
                }
                k = k + 1;
            }
            assert(!exists|j: int| 0 <= j < i && trim(#[trigger] ls[j].id) == id@) by {
                assert forall|j: int| 0 <= j < i implies trim(#[trigger] ls[j].id) != id@ by {
                    assert(ids@[j]@ == trim(ls[j].id));
                }
            }
            if blank(leader.display_name.as_str()) {
                let e = ManifestError::EmptyField { crew_id: id, field: "display_name" };
                assert(leader_problem(ls, i as int) == Some(e@));
                return Err(e);
            }
            if blank(leader.professional_role.as_str()) {
                let e = ManifestError::EmptyField { crew_id: id, field: "professional_role" };
                assert(leader_problem(ls, i as int) == Some(e@));
                return Err(e);
            }
            if blank(leader.department.as_str()) {
                let e = ManifestError::EmptyField { crew_id: id, field: "department" };
                assert(leader_problem(ls, i as int) == Some(e@));
                return Err(e);
            }
            if blank(leader.model.provider.as_str()) {
                let e = ManifestError::EmptyField { crew_id: id, field: "model.provider" };
                assert(leader_problem(ls, i as int) == Some(e@));
                return Err(e);
            }
            if blank(leader.model.model.as_str()) {
                let e = ManifestError::EmptyField { crew_id: id, field: "model.model" };
                assert(leader_problem(ls, i as int) == Some(e@));
                return Err(e);
            }
            assert(leader_problem(ls, i as int) is None);
            ids.push(id);
            i = i + 1;
        }
        Ok(())
    }

    /// The first leader whose id equals `id`.
    pub fn leader(&self, id: &CrewId) -> (r: Option<&TeamLeader>)
        ensures
            match leader_position(self@, id.0@) {
                Some(i) => r == Some(&self.leaders@[i]),
                None => r is None,
            },
    {
        let n = self.leaders.len();
        let mut i: usize = 0;
        while i < n
            invariant
                i <= n == self.leaders@.len(),
                forall|j: int| 0 <= j < i ==> self@[j].id != id.0@,
            decreases n - i,
        {
            if self.leaders[i].id.0 == id.0 {
                proof {
                    assert(is_first_leader(self@, id.0@, i as int));
                    lemma_leader_position(self@, id.0@);
                    let p = leader_position(self@, id.0@)->0;
                    lemma_first_leader_unique(self@, id.0@, p, i as int);
                }
                return Some(&self.leaders[i]);
            }
            i = i + 1;
        }
        proof {
            lemma_leader_position(self@, id.0@);
        }
        None
    }

    /// Gives the first leader with id `id` the assignment `model`; every other
    /// leader is left as it was.
    pub fn assign_model(&mut self, id: &CrewId, model: ModelAssignment) -> (r: Result<
        (),
        AssignModelError,
    >)
        ensures
            match r {
                Ok(()) => {
                    &&& !is_blank(model@.provider) && !is_blank(model@.model)
                    &&& leader_position(old(self)@, id.0@) matches Some(i)
                    &&& final(self)@ == old(self)@.update(i, with_model(old(self)@[i], model@))
                },
                Err(AssignModelError::InvalidModel) => {
                    &&& is_blank(model@.provider) || is_blank(model@.model)
                    &&& *final(self) == *old(self)
                },
                Err(AssignModelError::UnknownLeader(s)) => {
                    &&& !is_blank(model@.provider) && !is_blank(model@.model)
                    &&& leader_position(old(self)@, id.0@) is None
                    &&& s@ == id.0@
                    &&& *final(self) == *old(self)
                },
            },
            match assignment(old(self)@, id.0@, model@) {
                Ok(ns) => r is Ok && final(self)@ == ns,
                Err(t) => r matches Err(e) && assign_error_text(e) == t && *final(self) == *old(self),
            },
    {
        if blank(model.provider.as_str()) || blank(model.model.as_str()) {
            return Err(AssignModelError::InvalidModel);
        }
        let n = self.leaders.len();
        let mut i: usize = 0;
        while i < n
            invariant
                i <= n == self.leaders@.len(),
                *self == *old(self),
                !is_blank(model@.provider) && !is_blank(model@.model),
                forall|j: int| 0 <= j < i ==> self@[j].id != id.0@,
            decreases n - i,
        {
            if self.leaders[i].id.0 == id.0 {
                proof {
                    assert(is_first_leader(self@, id.0@, i as int));
                    lemma_leader_position(self@, id.0@);
                    let p = leader_position(self@, id.0@)->0;
                    lemma_first_leader_unique(self@, id.0@, p, i as int);
                }
                let ghost before = self@;
                self.leaders[i].model = model;
                assert(self@ =~= before.update(i as int, with_model(before[i as int], model@)));
                return Ok(());
            }
            i = i + 1;
        }
        proof {
            lemma_leader_position(self@, id.0@);
        }
        Err(AssignModelError::UnknownLeader(id.0.clone()))
    }
}

/// A leader built from its descriptive fields and a fresh assignment.
pub open spec fn leader_spec(
    id: Seq<char>,
    display_name: Seq<char>,
    professional_role: Seq<char>,
    department: Seq<char>,
    provider: Seq<char>,
    model: Seq<char>,
) -> LeaderView {
    LeaderView {
        id,
        display_name,
        professional_role,
        department,
        model: ModelView { provider, model, endpoint: None },
    }
}

/// The demonstrative crew, in order.
pub open spec fn example_crew() -> Seq<LeaderView> {
    seq![
        leader_spec("riker"@, "William Riker"@, "Agent Operations Director"@, "Command"@, "provider-a"@, "orchestration-model"@),
        leader_spec("data"@, "Data"@, "Principal Analyst"@, "Research & Analysis"@, "provider-b"@, "reasoning-model"@),
        leader_spec("la-forge"@, "Geordi La Forge"@, "Principal Software Engineer"@, "Engineering"@, "provider-c"@, "coding-model"@),
        leader_spec("worf"@, "Worf"@, "Security & Risk Director"@, "Security"@, "provider-b"@, "security-model"@),
        leader_spec("troi"@, "Deanna Troi"@, "Organisational Psychologist"@, "People & Users"@, "provider-a"@, "human-context-model"@),
        leader_spec("crusher"@, "Beverly Crusher"@, "Quality & Safety Director"@, "Quality"@, "provider-b"@, "diagnostic-model"@),
    ]
}

fn make_leader(
    id: &str,
    display_name: &str,
    professional_role: &str,
    department: &str,
    provider: &str,
    model: &str,
) -> (r: TeamLeader)
    ensures
        r@ == leader_spec(id@, display_name@, professional_role@, department@, provider@, model@),
{
    TeamLeader {
        id: CrewId::new(id),
        display_name: display_name.to_owned(),
        professional_role: professional_role.to_owned(),
        department: department.to_owned(),
        model: ModelAssignment::new(provider, model),
    }
}

/// A demonstrative crew. Model identifiers are placeholders, not defaults tied
/// to a particular commercial provider.
pub fn example_manifest() -> (r: CrewManifest)
    ensures
        r@ == example_crew(),
{
    let mut leaders: Vec<TeamLeader> = Vec::new();
    leaders.push(make_leader("riker", "William Riker", "Agent Operations Director", "Command", "provider-a", "orchestration-model"));
    leaders.push(make_leader("data", "Data", "Principal Analyst", "Research & Analysis", "provider-b", "reasoning-model"));
    leaders.push(make_leader("la-forge", "Geordi La Forge", "Principal Software Engineer", "Engineering", "provider-c", "coding-model"));
    leaders.push(make_leader("worf", "Worf", "Security & Risk Director", "Security", "provider-b", "security-model"));
    leaders.push(make_leader("troi", "Deanna Troi", "Organisational Psychologist", "People & Users", "provider-a", "human-context-model"));
    leaders.push(make_leader("crusher", "Beverly Crusher", "Quality & Safety Director", "Quality", "provider-b", "diagnostic-model"));
    let r = CrewManifest { leaders };
    assert(r@ =~= example_crew());
    r
}

/// A successful model assignment keeps a valid manifest valid: ids are
/// untouched and the new provider and model are not blank.
pub proof fn law_assignment_keeps_manifest_valid(ls: Seq<LeaderView>, i: int, m: ModelView)
    requires
        manifest_valid(ls),
        0 <= i < ls.len(),
        !is_blank(m.provider),
        !is_blank(m.model),
    ensures
        manifest_valid(ls.update(i, with_model(ls[i], m))),
{
    let ns = ls.update(i, with_model(ls[i], m));
    assert forall|k: int| 0 <= k < ns.len() implies leader_problem(ns, k) is None by {
        assert(leader_problem(ls, k) is None);
        assert forall|j: int| 0 <= j < ns.len() implies (#[trigger] ns[j]).id == ls[j].id by {}
        if exists|j: int| 0 <= j < k && trim(#[trigger] ns[j].id) == trim(ns[k].id) {
            let j = choose|j: int| 0 <= j < k && trim(#[trigger] ns[j].id) == trim(ns[k].id);
            assert(trim(ls[j].id) == trim(ls[k].id));
        }
    }
}

/// Changing one leader's assignment alters no other leader, and the changed
/// leader is found again with exactly the new assignment.
pub proof fn law_assignment_changes_only_the_selected_leader(
    ls: Seq<LeaderView>,
    id: Seq<char>,
    m: ModelView,
)
    requires
        leader_position(ls, id) is Some,
    ensures
        ({
            let i = leader_position(ls, id)->0;
            let ns = ls.update(i, with_model(ls[i], m));
            &&& leader_position(ns, id) == Some(i)
            &&& ns[i].model == m
            &&& ns[i].id == ls[i].id
            &&& forall|j: int| 0 <= j < ls.len() && j != i ==> ns[j] == ls[j]
        }),
{
    lemma_leader_position(ls, id);
    let i = leader_position(ls, id)->0;
    let ns = ls.update(i, with_model(ls[i], m));
    assert(is_first_leader(ns, id, i));
    lemma_leader_position(ns, id);
    lemma_first_leader_unique(ns, id, leader_position(ns, id)->0, i);
}

/// A crew passes validation exactly when every id is non-blank, the trimmed
/// ids are pairwise distinct, and no leader has a blank descriptive field.
pub proof fn law_valid_crew_has_distinct_ids(ls: Seq<LeaderView>)
    ensures
        manifest_valid(ls) <==> {
            &&& forall|i: int, j: int| 0 <= i < j < ls.len() ==> trim(#[trigger] ls[i].id) != trim(#[trigger] ls[j].id)
            &&& forall|i: int|
                0 <= i < ls.len() ==> {
                    &&& !is_blank(#[trigger] ls[i].id)
                    &&& !is_blank(ls[i].display_name)
                    &&& !is_blank(ls[i].professional_role)
                    &&& !is_blank(ls[i].department)
                    &&& !is_blank(ls[i].model.provider)
                    &&& !is_blank(ls[i].model.model)
                }
        },
{
    if manifest_valid(ls) {
        assert forall|i: int, j: int| 0 <= i < j < ls.len() implies trim(#[trigger] ls[i].id) != trim(
            #[trigger] ls[j].id,
        ) by {
            assert(leader_problem(ls, j) is None);
            if trim(ls[i].id) == trim(ls[j].id) {
                assert(0 <= i < j && trim(ls[i].id) == trim(ls[j].id));
            }
        }
        assert forall|i: int|
            0 <= i < ls.len() implies {
                &&& !is_blank(#[trigger] ls[i].id)
                &&& !is_blank(ls[i].display_name)
                &&& !is_blank(ls[i].professional_role)
                &&& !is_blank(ls[i].department)
                &&& !is_blank(ls[i].model.provider)
                &&& !is_blank(ls[i].model.model)
            } by {
            assert(leader_problem(ls, i) is None);
        }
    }
    if forall|i: int, j: int| 0 <= i < j < ls.len() ==> trim(#[trigger] ls[i].id) != trim(#[trigger] ls[j].id) {
        if forall|i: int|
            0 <= i < ls.len() ==> {
                &&& !is_blank(#[trigger] ls[i].id)
                &&& !is_blank(ls[i].display_name)
                &&& !is_blank(ls[i].professional_role)
                &&& !is_blank(ls[i].department)
                &&& !is_blank(ls[i].model.provider)
                &&& !is_blank(ls[i].model.model)
            } {
            assert forall|i: int| 0 <= i < ls.len() implies leader_problem(ls, i) is None by {
                assert(!is_blank(ls[i].id));
                assert forall|j: int| 0 <= j < i implies trim(#[trigger] ls[j].id) != trim(ls[i].id) by {
                    assert(trim(ls[j].id) != trim(ls[i].id));
                }
            }
        }
    }
}

} // verus!
