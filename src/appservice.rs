use vstd::prelude::*;
use crate::error::{Error, ErrorKind};
use crate::text::find_from;
use vstd::string::StrSliceExecFns;

verus! {

/// `regex::RegexSet`, carried opaquely: what the library knows of a set is
/// the list of patterns it was compiled from.
#[verifier::external_type_specification]
#[verifier::external_body]
pub struct ExRegexSet(regex::RegexSet);

/// The patterns a compiled regex set was built from, in order.
pub uninterp spec fn regex_set_patterns(set: regex::RegexSet) -> Seq<Seq<char>>;

/// Whether a list of patterns is a valid regex set.
pub uninterp spec fn regex_set_compiles(patterns: Seq<Seq<char>>) -> bool;

/// Whether one regular expression matches somewhere in a haystack.
pub uninterp spec fn regex_matches(pattern: Seq<char>, haystack: Seq<char>) -> bool;

/// Relies on `regex::RegexSet::new`: it fails exactly on patterns that are
/// not a valid set, and otherwise keeps the patterns in their order.
#[verifier::external_body]
fn compile_set(patterns: &Vec<String>) -> (r: Result<regex::RegexSet, ()>)
    ensures
        r is Ok <==> regex_set_compiles(patterns@.map_values(|s: String| s@)),
        r is Ok ==> regex_set_patterns(r->Ok_0) == patterns@.map_values(|s: String| s@),
{
    regex::RegexSet::new(patterns.iter()).map_err(|_| ())
}

/// Some pattern of the list matches the haystack.
pub open spec fn any_matches(patterns: Seq<Seq<char>>, haystack: Seq<char>) -> bool {
    exists|i: int| 0 <= i < patterns.len() && #[trigger] regex_matches(patterns[i], haystack)
}

/// A regex set compiled from a list of patterns with default options. The
/// only way to make one is `CompiledSet::new`, so its matching is decided by
/// its patterns alone.
#[derive(Debug)]
pub struct CompiledSet {
    set: regex::RegexSet,
}

/// Relies on `regex::RegexSet::is_match`: true exactly when one of the set's
/// regexes matches the haystack. Every `CompiledSet` was built by
/// `RegexSet::new` with default options, so each regex is its pattern as
/// written.
#[verifier::external_body]
fn set_is_match(set: &CompiledSet, haystack: &str) -> (r: bool)
    ensures
        r == (exists|i: int|
            0 <= i < regex_set_patterns(set.set).len() && #[trigger] regex_matches(
                regex_set_patterns(set.set)[i],
                haystack@,
            )),
{
    set.set.is_match(haystack)
}

impl CompiledSet {
    /// The patterns the set was compiled from, in order.
    pub closed spec fn patterns(&self) -> Seq<Seq<char>> {
        regex_set_patterns(self.set)
    }

    /// Compiles a list of patterns; an invalid list is refused.
    pub fn new(patterns: &Vec<String>) -> (r: Result<CompiledSet, Error>)
        ensures
            r is Ok <==> regex_set_compiles(patterns@.map_values(|s: String| s@)),
            r is Ok ==> r->Ok_0.patterns() == patterns@.map_values(|s: String| s@),
            r is Err ==> r->Err_0 == Error::BadRequest(ErrorKind::InvalidParam),
    {
        match compile_set(patterns) {
            Ok(set) => Ok(CompiledSet { set }),
            Err(()) => Err(Error::BadRequest(ErrorKind::InvalidParam)),
        }
    }

    /// Whether some pattern of the set matches somewhere in `haystack`.
    pub fn is_match(&self, haystack: &str) -> (r: bool)
        ensures
            r == any_matches(self.patterns(), haystack@),
    {
        set_is_match(self, haystack)
    }
}

/// Some pattern of an optional set matches.
pub open spec fn set_matches(set: Option<CompiledSet>, haystack: Seq<char>) -> bool {
    match set {
        Some(s) => any_matches(s.patterns(), haystack),
        None => false,
    }
}

/// One namespace of an appservice registration.
#[derive(Clone, Debug)]
pub struct Namespace {
    pub exclusive: bool,
    pub regex: String,
}

/// The regexes of the namespaces whose exclusivity is `exclusive`, in order.
pub open spec fn regexes_where(ns: Seq<Namespace>, exclusive: bool) -> Seq<Seq<char>>
    decreases ns.len(),
{
    if ns.len() == 0 {
        Seq::empty()
    } else {
        let r = regexes_where(ns.drop_last(), exclusive);
        if ns.last().exclusive == exclusive {
            r.push(ns.last().regex@)
        } else {
            r
        }
    }
}

/// The exclusive patterns, and the others, each form a valid set (or there
/// are none).
pub open spec fn namespaces_compile(ns: Seq<Namespace>) -> bool {
    (regexes_where(ns, true).len() == 0 || regex_set_compiles(regexes_where(ns, true))) && (regexes_where(
        ns,
        false,
    ).len() == 0 || regex_set_compiles(regexes_where(ns, false)))
}

/// Every namespace list of a registration compiles.
pub open spec fn registration_compiles(r: Registration) -> bool {
    namespaces_compile(r.namespaces.users@) && namespaces_compile(r.namespaces.aliases@) && namespaces_compile(
        r.namespaces.rooms@,
    )
}

/// Compiled regular expressions for a namespace.
#[derive(Debug)]
pub struct NamespaceRegex {
    pub exclusive: Option<CompiledSet>,
    pub non_exclusive: Option<CompiledSet>,
}

/// The compiled set for a list of patterns: none when the list is empty.
pub open spec fn compiled_for(set: Option<CompiledSet>, patterns: Seq<Seq<char>>) -> bool {
    if patterns.len() == 0 {
        set is None
    } else {
        set is Some && set->Some_0.patterns() == patterns
    }
}

impl NamespaceRegex {
    /// Whether this namespace has rights to `heystack`.
    pub fn is_match(&self, heystack: &str) -> (r: bool)
        ensures
            r == (set_matches(self.exclusive, heystack@) || set_matches(self.non_exclusive, heystack@)),
    {
        if self.is_exclusive_match(heystack) {
            return true;
        }
        match &self.non_exclusive {
            Some(set) => set.is_match(heystack),
            None => false,
        }
    }

    /// Whether this namespace has exclusive rights to `heystack`.
    pub fn is_exclusive_match(&self, heystack: &str) -> (r: bool)
        ensures
            r == set_matches(self.exclusive, heystack@),
    {
        match &self.exclusive {
            Some(set) => set.is_match(heystack),
            None => false,
        }
    }

    /// Compiles the exclusive and the other namespaces into one set each.
    pub fn try_from(value: Vec<Namespace>) -> (r: Result<NamespaceRegex, Error>)
        ensures
            r is Ok <==> namespaces_compile(value@),
            r is Ok ==> compiled_for(r->Ok_0.exclusive, regexes_where(value@, true)),
            r is Ok ==> compiled_for(r->Ok_0.non_exclusive, regexes_where(value@, false)),
            r is Err ==> r->Err_0 == Error::BadRequest(ErrorKind::InvalidParam),
    {
        let mut exclusive: Vec<String> = Vec::new();
        let mut non_exclusive: Vec<String> = Vec::new();
        let mut i: usize = 0;
        while i < value.len()
            invariant
                i <= value@.len(),
                exclusive@.map_values(|s: String| s@) == regexes_where(value@.take(i as int), true),
                non_exclusive@.map_values(|s: String| s@) == regexes_where(value@.take(i as int), false),
            decreases value@.len() - i,
        {
            assert(value@.take(i + 1).drop_last() =~= value@.take(i as int));
            let re = value[i].regex.clone();
            if value[i].exclusive {
                exclusive.push(re);
                assert(exclusive@.map_values(|s: String| s@) =~= regexes_where(value@.take(i + 1), true));
                assert(non_exclusive@.map_values(|s: String| s@) =~= regexes_where(value@.take(i + 1), false));
            } else {
                non_exclusive.push(re);
                assert(exclusive@.map_values(|s: String| s@) =~= regexes_where(value@.take(i + 1), true));
                assert(non_exclusive@.map_values(|s: String| s@) =~= regexes_where(value@.take(i + 1), false));
            }
            i += 1;
        }
        assert(value@.take(value@.len() as int) =~= value@);
        let ex = if exclusive.len() == 0 {
            None
        } else {
            match CompiledSet::new(&exclusive) {
                Ok(s) => Some(s),
                Err(e) => return Err(e),
            }
        };
        let nex = if non_exclusive.len() == 0 {
            None
        } else {
            match CompiledSet::new(&non_exclusive) {
                Ok(s) => Some(s),
                Err(e) => return Err(e),
            }
        };
        Ok(NamespaceRegex { exclusive: ex, non_exclusive: nex })
    }
}

/// The namespaces an appservice claims.
#[derive(Clone, Debug)]
pub struct Namespaces {
    pub users: Vec<Namespace>,
    pub aliases: Vec<Namespace>,
    pub rooms: Vec<Namespace>,
}

/// An appservice registration.
#[derive(Clone, Debug)]
pub struct Registration {
    pub id: String,
    pub url: Option<String>,
    pub as_token: String,
    pub hs_token: String,
    pub sender_localpart: String,
    pub namespaces: Namespaces,
}

/// Appservice registration combined with its compiled regular expressions.
#[derive(Debug)]
pub struct RegistrationInfo {
    pub registration: Registration,
    pub users: NamespaceRegex,
    pub aliases: NamespaceRegex,
    pub rooms: NamespaceRegex,
}

/// The localpart of a user id `@localpart:server`: what lies between the
/// sigil and the first `:`.
pub open spec fn localpart(user_id: Seq<char>) -> Seq<char> {
    match find_from(user_id, ":"@, 0) {
        Some(i) => if i >= 1 {
            user_id.subrange(1, i)
        } else {
            Seq::empty()
        },
        None => if user_id.len() >= 1 {
            user_id.skip(1)
        } else {
            Seq::empty()
        },
    }
}

/// The localpart of a user id.
pub fn user_localpart(user_id: &str) -> (r: String)
    ensures
        r@ == localpart(user_id@),
{
    let n = user_id.unicode_len();
    match crate::text::find(user_id, ":") {
        Some(i) => {
            proof {
                crate::text::lemma_find_bounds(user_id@, ":"@, 0);
            }
            if i >= 1 {
                user_id.substring_char(1, i).to_owned()
            } else {
                let r = String::new();
                assert(r@ =~= Seq::<char>::empty());
                r
            }
        },
        None => {
            if n >= 1 {
                user_id.substring_char(1, n).to_owned()
            } else {
                let r = String::new();
                assert(r@ =~= Seq::<char>::empty());
                r
            }
        },
    }
}

/// Character-wise equality of two strings.
pub fn str_eq(a: &str, b: &str) -> (r: bool)
    ensures
        r == (a@ == b@),
{
    let ac = crate::text::chars_of(a);
    let bc = crate::text::chars_of(b);
    if ac.len() != bc.len() {
        return false;
    }
    let mut i: usize = 0;
    while i < ac.len()
        invariant
            i <= ac@.len(),
            ac@.len() == bc@.len(),
            ac@ == a@,
            bc@ == b@,
            forall|j: int| 0 <= j < i ==> ac@[j] == bc@[j],
        decreases ac@.len() - i,
    {
        if ac[i] != bc[i] {
            return false;
        }
        i += 1;
    }
    assert(a@ =~= b@);
    true
}

impl RegistrationInfo {
    /// Compiles the namespaces of a registration.
    pub fn try_from(value: Registration) -> (r: Result<RegistrationInfo, Error>)
        ensures
            r is Ok <==> registration_compiles(value),
            r is Err ==> r->Err_0 == Error::BadRequest(ErrorKind::InvalidParam),
            r is Ok ==> r->Ok_0.registration == value,
            r is Ok ==> compiled_for(r->Ok_0.users.exclusive, regexes_where(value.namespaces.users@, true))
                && compiled_for(r->Ok_0.users.non_exclusive, regexes_where(value.namespaces.users@, false)),
            r is Ok ==> compiled_for(r->Ok_0.aliases.exclusive, regexes_where(value.namespaces.aliases@, true))
                && compiled_for(r->Ok_0.aliases.non_exclusive, regexes_where(value.namespaces.aliases@, false)),
            r is Ok ==> compiled_for(r->Ok_0.rooms.exclusive, regexes_where(value.namespaces.rooms@, true))
                && compiled_for(r->Ok_0.rooms.non_exclusive, regexes_where(value.namespaces.rooms@, false)),
    {
        let users = match NamespaceRegex::try_from(clone_namespaces(&value.namespaces.users)) {
            Ok(n) => n,
            Err(e) => return Err(e),
        };
        let aliases = match NamespaceRegex::try_from(clone_namespaces(&value.namespaces.aliases)) {
            Ok(n) => n,
            Err(e) => return Err(e),
        };
        let rooms = match NamespaceRegex::try_from(clone_namespaces(&value.namespaces.rooms)) {
            Ok(n) => n,
            Err(e) => return Err(e),
        };
        Ok(RegistrationInfo { registration: value, users, aliases, rooms })
    }

    /// Whether the appservice has rights to `user_id`: a namespace matches,
    /// or it is the appservice's own sender.
    pub fn is_user_match(&self, user_id: &str) -> (r: bool)
        ensures
            r == (set_matches(self.users.exclusive, user_id@) || set_matches(self.users.non_exclusive, user_id@)
                || self.registration.sender_localpart@ == localpart(user_id@)),
    {
        if self.users.is_match(user_id) {
            return true;
        }
        let lp = user_localpart(user_id);
        str_eq(self.registration.sender_localpart.as_str(), lp.as_str())
    }

    /// Whether the appservice has exclusive rights to `user_id`.
    pub fn is_exclusive_user_match(&self, user_id: &str) -> (r: bool)
        ensures
            r == (set_matches(self.users.exclusive, user_id@) || self.registration.sender_localpart@
                == localpart(user_id@)),
    {
        if self.users.is_exclusive_match(user_id) {
            return true;
        }
        let lp = user_localpart(user_id);
        str_eq(self.registration.sender_localpart.as_str(), lp.as_str())
    }
}

/// A copy of a list of namespaces.
fn clone_namespaces(v: &Vec<Namespace>) -> (r: Vec<Namespace>)
    ensures
        r@.len() == v@.len(),
        forall|i: int| 0 <= i < v@.len() ==> (#[trigger] r@[i]).exclusive == v@[i].exclusive && r@[i].regex@
            == v@[i].regex@,
        regexes_where(r@, true) == regexes_where(v@, true),
        regexes_where(r@, false) == regexes_where(v@, false),
{
    let mut r: Vec<Namespace> = Vec::new();
    let mut i: usize = 0;
    while i < v.len()
        invariant
            i <= v@.len(),
            r@.len() == i,
            forall|j: int| 0 <= j < i ==> (#[trigger] r@[j]).exclusive == v@[j].exclusive && r@[j].regex@
                == v@[j].regex@,
        decreases v@.len() - i,
    {
        r.push(Namespace { exclusive: v[i].exclusive, regex: v[i].regex.clone() });
        i += 1;
    }
    proof {
        lemma_regexes_where_same(r@, v@, true);
        lemma_regexes_where_same(r@, v@, false);
    }
    r
}

proof fn lemma_regexes_where_same(a: Seq<Namespace>, b: Seq<Namespace>, exclusive: bool)
    requires
        a.len() == b.len(),
        forall|i: int| 0 <= i < a.len() ==> (#[trigger] a[i]).exclusive == b[i].exclusive && a[i].regex@
            == b[i].regex@,
    ensures
        regexes_where(a, exclusive) == regexes_where(b, exclusive),
    decreases a.len(),
{
    if a.len() > 0 {
        lemma_regexes_where_same(a.drop_last(), b.drop_last(), exclusive);
        assert(a.last() == a[a.len() - 1]);
    }
}

} // verus!

verus! {

/// The registered appservices, by id.
pub struct Service {
    registration_info: Vec<RegistrationInfo>,
}

impl Service {
    /// The registrations, in the order they were first registered.
    pub closed spec fn infos(&self) -> Seq<RegistrationInfo> {
        self.registration_info@
    }

    /// No id is registered twice.
    pub open spec fn wf(&self) -> bool {
        forall|i: int, j: int|
            0 <= i < j < self.infos().len() ==> (#[trigger] self.infos()[i]).registration.id@ != (
            #[trigger] self.infos()[j]).registration.id@
    }

    /// Whether `id` is registered.
    pub open spec fn has_id(&self, id: Seq<char>) -> bool {
        exists|i: int| 0 <= i < self.infos().len() && (#[trigger] self.infos()[i]).registration.id@ == id
    }

    pub fn new() -> (r: Service)
        ensures
            r.wf(),
            r.infos().len() == 0,
    {
        Service { registration_info: Vec::new() }
    }

    /// Where the registration `id` stands, if anywhere.
    fn position(&self, id: &str) -> (r: Option<usize>)
        ensures
            r is None ==> !self.has_id(id@),
            r is Some ==> r->Some_0 < self.infos().len() && self.infos()[r->Some_0 as int].registration.id@ == id@,
    {
        let mut i: usize = 0;
        while i < self.registration_info.len()
            invariant
                i <= self.infos().len(),
                forall|j: int| 0 <= j < i ==> (#[trigger] self.infos()[j]).registration.id@ != id@,
            decreases self.infos().len() - i,
        {
            if str_eq(self.registration_info[i].registration.id.as_str(), id) {
                return Some(i);
            }
            i += 1;
        }
        None
    }

    /// Registers an appservice, replacing an earlier registration with the
    /// same id, and returns the id. A registration whose namespaces do not
    /// compile is refused and nothing changes.
    pub fn register_appservice(&mut self, yaml: Registration) -> (r: Result<String, Error>)
        requires
            old(self).wf(),
        ensures
            final(self).wf(),
            r is Ok <==> registration_compiles(yaml),
            r is Err ==> r->Err_0 == Error::BadRequest(ErrorKind::InvalidParam),
            r is Ok ==> r->Ok_0@ == yaml.id@,
            r is Ok ==> final(self).has_id(yaml.id@),
            r is Ok ==> forall|x: Seq<char>| #[trigger] final(self).has_id(x) <==> (old(self).has_id(x) || x == yaml.id@),
            r is Err ==> final(self).infos() == old(self).infos(),
    {
        let id = yaml.id.clone();
        let info = match RegistrationInfo::try_from(yaml) {
            Ok(info) => info,
            Err(e) => return Err(e),
        };
        let ghost before = self.infos();
        match self.position(id.as_str()) {
            Some(i) => {
                self.registration_info.set(i, info);
                proof {
                    assert forall|a: int, b: int| 0 <= a < b < self.infos().len() implies (
                    #[trigger] self.infos()[a]).registration.id@ != (#[trigger] self.infos()[b]).registration.id@ by {
                        assert(before[a].registration.id@ != before[b].registration.id@);
                    }
                    assert forall|x: Seq<char>| #[trigger] self.has_id(x) <==> (old(self).has_id(x) || x == id@) by {
                        if old(self).has_id(x) {
                            let j = choose|j: int| 0 <= j < before.len() && (#[trigger] before[j]).registration.id@ == x;
                            assert(self.infos()[j].registration.id@ == x);
                        }
                        if self.has_id(x) {
                            let j = choose|j: int| 0 <= j < self.infos().len() && (#[trigger] self.infos()[j]).registration.id@ == x;
                            assert(before[j].registration.id@ == x);
                        }
                        assert(self.infos()[i as int].registration.id@ == id@);
                    }
                }
            },
            None => {
                self.registration_info.push(info);
                proof {
                    assert forall|a: int, b: int| 0 <= a < b < self.infos().len() implies (
                    #[trigger] self.infos()[a]).registration.id@ != (#[trigger] self.infos()[b]).registration.id@ by {
                        if b < before.len() {
                            assert(before[a].registration.id@ != before[b].registration.id@);
                        } else {
                            assert(self.infos()[a] == before[a]);
                        }
                    }
                    assert forall|x: Seq<char>| #[trigger] self.has_id(x) <==> (old(self).has_id(x) || x == id@) by {
                        if old(self).has_id(x) {
                            let j = choose|j: int| 0 <= j < before.len() && (#[trigger] before[j]).registration.id@ == x;
                            assert(self.infos()[j].registration.id@ == x);
                        }
                        if self.has_id(x) {
                            let j = choose|j: int| 0 <= j < self.infos().len() && (#[trigger] self.infos()[j]).registration.id@ == x;
                            if j < before.len() {
                                assert(before[j].registration.id@ == x);
                            }
                        }
                        assert(self.infos()[before.len() as int].registration.id@ == id@);
                    }
                }
            },
        }
        Ok(id)
    }

    /// Removes a registration; an unknown id is refused.
    pub fn unregister_appservice(&mut self, service_name: &str) -> (r: Result<(), Error>)
        requires
            old(self).wf(),
        ensures
            final(self).wf(),
            r is Ok <==> old(self).has_id(service_name@),
            r is Err ==> r->Err_0 == Error::BadRequest(ErrorKind::NotFound),
            forall|x: Seq<char>| #[trigger] final(self).has_id(x) <==> (old(self).has_id(x) && x != service_name@),
    {
        match self.position(service_name) {
            None => Err(Error::BadRequest(ErrorKind::NotFound)),
            Some(i) => {
                let ghost before = self.infos();
                self.registration_info.remove(i);
                proof {
                    assert forall|a: int, b: int| 0 <= a < b < self.infos().len() implies (
                    #[trigger] self.infos()[a]).registration.id@ != (#[trigger] self.infos()[b]).registration.id@ by {
                        if b < i {
                            assert(before[a].registration.id@ != before[b].registration.id@);
                        } else if a < i {
                            assert(before[a].registration.id@ != before[b + 1].registration.id@);
                        } else {
                            assert(before[a + 1].registration.id@ != before[b + 1].registration.id@);
                        }
                    }
                    assert forall|x: Seq<char>| #[trigger] self.has_id(x) <==> (old(self).has_id(x) && x != service_name@) by {
                        if self.has_id(x) {
                            let j = choose|j: int| 0 <= j < self.infos().len() && (#[trigger] self.infos()[j]).registration.id@ == x;
                            if j < i {
                                assert(before[j].registration.id@ == x);
                                assert(before[j].registration.id@ != before[i as int].registration.id@);
                            } else {
                                assert(before[j + 1].registration.id@ == x);
                                assert(before[i as int].registration.id@ != before[j + 1].registration.id@);
                            }
                        }
                        if old(self).has_id(x) && x != service_name@ {
                            let j = choose|j: int| 0 <= j < before.len() && (#[trigger] before[j]).registration.id@ == x;
                            if j < i {
                                assert(self.infos()[j].registration.id@ == x);
                            } else {
                                assert(j != i);
                                assert(self.infos()[j - 1].registration.id@ == x);
                            }
                        }
                    }
                }
                Ok(())
            },
        }
    }

    /// The registration with id `id`.
    pub fn get_registration(&self, id: &str) -> (r: Option<&Registration>)
        ensures
            r is Some <==> self.has_id(id@),
            r is Some ==> r->Some_0.id@ == id@ && exists|i: int|
                0 <= i < self.infos().len() && (#[trigger] self.infos()[i]).registration == *r->Some_0,
    {
        match self.position(id) {
            None => None,
            Some(i) => Some(&self.registration_info[i].registration),
        }
    }

    /// The registered ids, in order.
    pub fn iter_ids(&self) -> (r: Vec<String>)
        ensures
            r@.len() == self.infos().len(),
            forall|i: int| 0 <= i < r@.len() ==> (#[trigger] r@[i])@ == self.infos()[i].registration.id@,
    {
        let mut r: Vec<String> = Vec::new();
        let mut i: usize = 0;
        while i < self.registration_info.len()
            invariant
                i <= self.infos().len(),
                r@.len() == i,
                forall|j: int| 0 <= j < i ==> (#[trigger] r@[j])@ == self.infos()[j].registration.id@,
            decreases self.infos().len() - i,
        {
            r.push(self.registration_info[i].registration.id.clone());
            i += 1;
        }
        r
    }

    /// The first registration whose appservice token is `token`.
    pub fn find_from_token(&self, token: &str) -> (r: Option<&RegistrationInfo>)
        ensures
            r is None ==> forall|i: int| 0 <= i < self.infos().len() ==> (#[trigger] self.infos()[i]).registration.as_token@ != token@,
            r is Some ==> r->Some_0.registration.as_token@ == token@ && exists|i: int|
                0 <= i < self.infos().len() && #[trigger] self.infos()[i] == *r->Some_0,
    {
        let mut i: usize = 0;
        while i < self.registration_info.len()
            invariant
                i <= self.infos().len(),
                forall|j: int| 0 <= j < i ==> (#[trigger] self.infos()[j]).registration.as_token@ != token@,
            decreases self.infos().len() - i,
        {
            if str_eq(self.registration_info[i].registration.as_token.as_str(), token) {
                return Some(&self.registration_info[i]);
            }
            i += 1;
        }
        None
    }

    /// Whether some appservice claims `user_id` exclusively.
    pub fn is_exclusive_user_id(&self, user_id: &str) -> (r: bool)
        ensures
            r == exists|i: int|
                0 <= i < self.infos().len() && (set_matches((#[trigger] self.infos()[i]).users.exclusive, user_id@)
                    || self.infos()[i].registration.sender_localpart@ == localpart(user_id@)),
    {
        let mut i: usize = 0;
        while i < self.registration_info.len()
            invariant
                i <= self.infos().len(),
                forall|j: int| 0 <= j < i ==> !(set_matches((#[trigger] self.infos()[j]).users.exclusive, user_id@)
                    || self.infos()[j].registration.sender_localpart@ == localpart(user_id@)),
            decreases self.infos().len() - i,
        {
            if self.registration_info[i].is_exclusive_user_match(user_id) {
                return true;
            }
            i += 1;
        }
        false
    }

    /// Whether some appservice claims the alias exclusively.
    pub fn is_exclusive_alias(&self, alias: &str) -> (r: bool)
        ensures
            r == exists|i: int|
                0 <= i < self.infos().len() && set_matches((#[trigger] self.infos()[i]).aliases.exclusive, alias@),
    {
        let mut i: usize = 0;
        while i < self.registration_info.len()
            invariant
                i <= self.infos().len(),
                forall|j: int| 0 <= j < i ==> !set_matches((#[trigger] self.infos()[j]).aliases.exclusive, alias@),
            decreases self.infos().len() - i,
        {
            if self.registration_info[i].aliases.is_exclusive_match(alias) {
                return true;
            }
            i += 1;
        }
        false
    }

    /// Whether some appservice claims the room id exclusively.
    pub fn is_exclusive_room_id(&self, room_id: &str) -> (r: bool)
        ensures
            r == exists|i: int|
                0 <= i < self.infos().len() && set_matches((#[trigger] self.infos()[i]).rooms.exclusive, room_id@),
    {
        let mut i: usize = 0;
        while i < self.registration_info.len()
            invariant
                i <= self.infos().len(),
                forall|j: int| 0 <= j < i ==> !set_matches((#[trigger] self.infos()[j]).rooms.exclusive, room_id@),
            decreases self.infos().len() - i,
        {
            if self.registration_info[i].rooms.is_exclusive_match(room_id) {
                return true;
            }
            i += 1;
        }
        false
    }
}

} // verus!
