//! The entitlement policy.
//!
//! A policy is an ordered list of rules.  A rule applies to a lookup when
//! its role matches, its user pattern matches the user (exactly, or as the
//! wildcard `*`), and its topic pattern — a regular expression — matches
//! the topic.  The entitlements of a lookup are the union of the
//! entitlement sets of every applying rule.

use vstd::prelude::*;

use crate::patterns::{pattern_matches, re_matches, re_valid};

verus! {

/// The axis of a policy lookup: publishing to a topic or subscribing to it.
#[derive(Clone, Copy, PartialEq, Eq, Structural, Debug)]
pub enum Role {
    Publisher,
    Subscriber,
}

/// One policy rule.
#[derive(Clone, Debug, PartialEq)]
pub struct AuthorizationSpec {
    pub user_pattern: String,
    pub topic_pattern: String,
    pub role: Role,
    pub entitlements: Vec<i32>,
}

pub struct AuthorizationSpecV {
    pub user_pattern: Seq<char>,
    pub topic_pattern: Seq<char>,
    pub role: Role,
    pub entitlements: Seq<i32>,
}

impl DeepView for AuthorizationSpec {
    type V = AuthorizationSpecV;

    open spec fn deep_view(&self) -> AuthorizationSpecV {
        AuthorizationSpecV {
            user_pattern: self.user_pattern@,
            topic_pattern: self.topic_pattern@,
            role: self.role,
            entitlements: self.entitlements.deep_view(),
        }
    }
}

/// A user pattern of the single character `*` matches every user.
pub open spec fn is_wildcard(p: Seq<char>) -> bool {
    p.len() == 1 && p[0] == '*'
}

/// Whether a rule applies to a lookup.
pub open spec fn rule_applies(r: AuthorizationSpecV, user: Seq<char>, topic: Seq<char>, role: Role) -> bool {
    &&& r.role == role
    &&& (is_wildcard(r.user_pattern) || r.user_pattern == user)
    &&& re_valid(r.topic_pattern)
    &&& re_matches(r.topic_pattern, topic)
}

/// The union of the entitlement sets of the applying rules.
pub open spec fn applied_entitlements(
    rules: Seq<AuthorizationSpecV>,
    user: Seq<char>,
    topic: Seq<char>,
    role: Role,
) -> Set<i32>
    decreases rules.len(),
{
    if rules.len() == 0 {
        Set::empty()
    } else {
        let head = if rule_applies(rules[0], user, topic, role) {
            rules[0].entitlements.to_set()
        } else {
            Set::empty()
        };
        head.union(applied_entitlements(rules.drop_first(), user, topic, role))
    }
}

/// Whether any rule applies to a lookup.
pub open spec fn any_rule_applies(
    rules: Seq<AuthorizationSpecV>,
    user: Seq<char>,
    topic: Seq<char>,
    role: Role,
) -> bool
    decreases rules.len(),
{
    if rules.len() == 0 {
        false
    } else {
        rule_applies(rules[0], user, topic, role) || any_rule_applies(
            rules.drop_first(),
            user,
            topic,
            role,
        )
    }
}

/// The default entitlement granted where the policy is silent.
pub open spec fn default_entitlements() -> Set<i32> {
    Set::empty().insert(0)
}

/// The entitlements of a lookup: the union over the applying rules, or the
/// default grant when no rule applies at all.  A rule that applies with an
/// empty entitlement list is an explicit denial: the union it joins can be
/// empty.
pub open spec fn policy_entitlements(
    rules: Seq<AuthorizationSpecV>,
    user: Seq<char>,
    topic: Seq<char>,
    role: Role,
) -> Set<i32> {
    if any_rule_applies(rules, user, topic, role) {
        applied_entitlements(rules, user, topic, role)
    } else {
        default_entitlements()
    }
}

/// A set with at least one element.
pub open spec fn set_nonempty(s: Set<i32>) -> bool {
    exists|x: i32| s.contains(x)
}

proof fn lemma_policy_snoc(
    rules: Seq<AuthorizationSpecV>,
    r: AuthorizationSpecV,
    user: Seq<char>,
    topic: Seq<char>,
    role: Role,
)
    ensures
        any_rule_applies(rules.push(r), user, topic, role) == (any_rule_applies(
            rules,
            user,
            topic,
            role,
        ) || rule_applies(r, user, topic, role)),
        applied_entitlements(rules.push(r), user, topic, role) =~= applied_entitlements(
            rules,
            user,
            topic,
            role,
        ).union(
            if rule_applies(r, user, topic, role) {
                r.entitlements.to_set()
            } else {
                Set::empty()
            },
        ),
    decreases rules.len(),
{
    let s2 = rules.push(r);
    if rules.len() == 0 {
        assert(s2[0] == r);
        assert(s2.drop_first() =~= Seq::<AuthorizationSpecV>::empty());
        let x = if rule_applies(r, user, topic, role) {
            r.entitlements.to_set()
        } else {
            Set::<i32>::empty()
        };
        assert(applied_entitlements(s2.drop_first(), user, topic, role) =~= Set::<i32>::empty());
        assert(any_rule_applies(s2.drop_first(), user, topic, role) == false);
        assert(applied_entitlements(s2, user, topic, role) =~= x.union(Set::<i32>::empty()));
        assert(applied_entitlements(rules, user, topic, role) =~= Set::<i32>::empty());
        assert(x.union(Set::<i32>::empty()) =~= Set::<i32>::empty().union(x));
    } else {
        assert(s2[0] == rules[0]);
        assert(s2.drop_first() =~= rules.drop_first().push(r));
        lemma_policy_snoc(rules.drop_first(), r, user, topic, role);
        let h0 = if rule_applies(rules[0], user, topic, role) {
            rules[0].entitlements.to_set()
        } else {
            Set::<i32>::empty()
        };
        let x = if rule_applies(r, user, topic, role) {
            r.entitlements.to_set()
        } else {
            Set::<i32>::empty()
        };
        let tail = applied_entitlements(rules.drop_first(), user, topic, role);
        assert(any_rule_applies(s2, user, topic, role) == (rule_applies(rules[0], user, topic, role)
            || any_rule_applies(s2.drop_first(), user, topic, role)));
        assert(applied_entitlements(s2, user, topic, role) =~= h0.union(tail.union(x)));
        assert(applied_entitlements(rules, user, topic, role) =~= h0.union(tail));
        assert(h0.union(tail.union(x)) =~= h0.union(tail).union(x));
    }
}

/// An append's elements, as a set, are the union of the parts'.
proof fn lemma_concat_to_set(a: Seq<i32>, b: Seq<i32>)
    ensures
        (a + b).to_set() =~= a.to_set().union(b.to_set()),
{
    let c = a + b;
    assert forall|x: i32| c.to_set().contains(x) implies a.to_set().contains(x)
        || b.to_set().contains(x) by {
        let i = choose|i: int| 0 <= i < c.len() && c[i] == x;
        if i < a.len() {
            assert(a[i] == x);
        } else {
            assert(b[i - a.len()] == x);
        }
    }
    assert forall|x: i32| a.to_set().contains(x) || b.to_set().contains(x) implies c.to_set().contains(
        x,
    ) by {
        if a.to_set().contains(x) {
            let i = choose|i: int| 0 <= i < a.len() && a[i] == x;
            assert(c[i] == x);
        } else {
            let i = choose|i: int| 0 <= i < b.len() && b[i] == x;
            assert(c[a.len() + i] == x);
        }
    }
}

/// Where no rule applies, the union over the applying rules is empty.
proof fn lemma_applied_empty(
    rules: Seq<AuthorizationSpecV>,
    user: Seq<char>,
    topic: Seq<char>,
    role: Role,
)
    requires
        !any_rule_applies(rules, user, topic, role),
    ensures
        applied_entitlements(rules, user, topic, role) =~= Set::<i32>::empty(),
    decreases rules.len(),
{
    if rules.len() > 0 {
        lemma_applied_empty(rules.drop_first(), user, topic, role);
    }
}

proof fn lemma_push_i32_to_set(s: Seq<i32>, x: i32)
    ensures
        s.push(x).to_set() =~= s.to_set().insert(x),
{
    assert forall|y: i32| s.push(x).to_set().contains(y) implies s.to_set().insert(x).contains(
        y,
    ) by {
        let i = choose|i: int| 0 <= i < s.push(x).len() && s.push(x)[i] == y;
        if i < s.len() {
            assert(s[i] == y);
        }
    }
    assert forall|y: i32| s.to_set().insert(x).contains(y) implies s.push(x).to_set().contains(
        y,
    ) by {
        if y == x {
            assert(s.push(x)[s.len() as int] == y);
        } else {
            let i = choose|i: int| 0 <= i < s.len() && s[i] == y;
            assert(s.push(x)[i] == y);
        }
    }
}

/// Whether the string is the one-character wildcard.
fn is_wildcard_str(s: &String) -> (r: bool)
    ensures
        r == is_wildcard(s@),
{
    let sl = s.as_str();
    if sl.unicode_len() == 1 {
        sl.get_char(0) == '*'
    } else {
        false
    }
}

/// The policy in force: an immutable snapshot of rules, replaced whole on
/// reload.
pub struct AuthorizationManager {
    specs: Vec<AuthorizationSpec>,
}

impl DeepView for AuthorizationManager {
    type V = Seq<AuthorizationSpecV>;

    closed spec fn deep_view(&self) -> Seq<AuthorizationSpecV> {
        self.specs.deep_view()
    }
}

impl AuthorizationManager {
    pub fn new(specs: Vec<AuthorizationSpec>) -> (r: AuthorizationManager)
        ensures
            r.deep_view() == specs.deep_view(),
    {
        AuthorizationManager { specs }
    }

    /// Replaces the whole rule set, as a policy reload does.
    pub fn reset(&mut self, specs: Vec<AuthorizationSpec>)
        ensures
            final(self).deep_view() == specs.deep_view(),
    {
        self.specs = specs;
    }

    /// The entitlements of `(user, topic, role)` under the current policy.
    pub fn entitlements(&self, user: &String, topic: &String, role: Role) -> (r: Vec<i32>)
        ensures
            r@.to_set() == policy_entitlements(self.deep_view(), user@, topic@, role),
    {
        let ghost rules = self.deep_view();
        let n = self.specs.len();
        let mut r: Vec<i32> = Vec::new();
        let mut matched: bool = false;
        let mut i: usize = 0;
        while i < n
            invariant
                i <= n,
                n == rules.len(),
                rules == self.deep_view(),
                matched == any_rule_applies(rules.take(i as int), user@, topic@, role),
                r@.to_set() =~= applied_entitlements(rules.take(i as int), user@, topic@, role),
            decreases n - i,
        {
            let spec_i = &self.specs[i];
            let applies = (match (spec_i.role, role) {
                (Role::Publisher, Role::Publisher) => true,
                (Role::Subscriber, Role::Subscriber) => true,
                _ => false,
            }) && (is_wildcard_str(&spec_i.user_pattern) || spec_i.user_pattern == *user)
                && pattern_matches(&spec_i.topic_pattern, topic);
            let ghost r0 = r@;
            if applies {
                matched = true;
                r.extend_from_slice(spec_i.entitlements.as_slice());
                proof {
                    assert(r@ =~= r0 + rules[i as int].entitlements);
                    lemma_concat_to_set(r0, rules[i as int].entitlements);
                }
            }
            proof {
                lemma_policy_snoc(rules.take(i as int), rules[i as int], user@, topic@, role);
                assert(rules.take(i as int).push(rules[i as int]) =~= rules.take(i + 1));
                assert(r@.to_set() =~= applied_entitlements(
                    rules.take(i + 1),
                    user@,
                    topic@,
                    role,
                ));
            }
            i = i + 1;
        }
        proof {
            assert(rules.take(n as int) =~= rules);
        }
        if !matched {
            let ghost r0 = r@;
            r.push(0);
            proof {
                assert(r@ =~= r0.push(0));
                lemma_push_i32_to_set(r0, 0);
                lemma_applied_empty(rules, user@, topic@, role);
                assert(r@.to_set() =~= default_entitlements());
            }
        }
        r
    }
}

} // verus!
