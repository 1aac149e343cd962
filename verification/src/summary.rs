//! The wake summary: plain text of at most [`WAKE_BUDGET_BYTES`] bytes that
//! orients an agent when it wakes.
//!
//! Rendering is a pure function of a [`WakeInput`]. A skeleton of short forms
//! always stands; candidates are then upgraded to full form in priority
//! order while the text stays within the budget. Everything shortened keeps
//! an id, an explicit `(+k more)` count, or the `more:` line that points at
//! the full projections.

use vstd::prelude::*;
use crate::model::{clone_opt_string, opt_str, EntityRef, SourceState};
use crate::sort::{lemma_insert_by_at, sort_by};
use crate::store::vseq;
use crate::text::{chars_of, char_is_whitespace, decimal, is_whitespace, push_decimal, string_from_chars};

verus! {

/// The hard byte budget of a rendered wake.
pub const WAKE_BUDGET_BYTES: usize = 1000;
pub const GOAL_CAP: usize = 200;
pub const LABEL_CAP: usize = 32;
pub const NOTE_EXCERPT_CAP: usize = 100;
pub const NOTE_FULL_CAP: usize = 240;
pub const ITEM_CAP: usize = 100;
pub const REFERENCE_CAP: usize = 80;
pub const ID_LIST_CAP: usize = 5;
/// How many governing bindings are listed.
pub const GOVERNS_LIST_CAP: usize = 3;
/// The mark of a cut.
pub const ELLIPSIS: &'static str = "…";
/// The first line of every wake.
pub const HEADER: &'static str = "wake · stale outranks memory · reveal: workspace_reveal";

// ---------------------------------------------------------------------------
// Bytes of UTF-8 text.

/// The number of bytes UTF-8 spends on a character.
pub open spec fn char_width(c: char) -> nat {
    let u = c as u32;
    if u < 0x80 {
        1
    } else if u < 0x800 {
        2
    } else if u < 0x10000 {
        3
    } else {
        4
    }
}

/// The UTF-8 byte length of a character sequence.
pub open spec fn blen(s: Seq<char>) -> nat
    decreases s.len(),
{
    if s.len() == 0 {
        0
    } else {
        blen(s.drop_last()) + char_width(s.last())
    }
}

pub proof fn lemma_blen_concat(a: Seq<char>, b: Seq<char>)
    ensures
        blen(a + b) == blen(a) + blen(b),
    decreases b.len(),
{
    if b.len() > 0 {
        assert((a + b).drop_last() =~= a + b.drop_last());
        lemma_blen_concat(a, b.drop_last());
    } else {
        assert(a + b =~= a);
    }
}

proof fn lemma_blen_take_step(s: Seq<char>, k: int)
    requires
        0 <= k < s.len(),
    ensures
        blen(s.take(k + 1)) == blen(s.take(k)) + char_width(s[k]),
{
    assert(s.take(k + 1).drop_last() =~= s.take(k));
}

fn width_of(c: char) -> (r: usize)
    ensures
        r == char_width(c),
        1 <= r <= 4,
{
    let u = c as u32;
    if u < 0x80 {
        1
    } else if u < 0x800 {
        2
    } else if u < 0x10000 {
        3
    } else {
        4
    }
}

/// Whether the UTF-8 encoding of `s` takes at most `limit` bytes.
pub fn fits_within(s: &Vec<char>, limit: usize) -> (r: bool)
    ensures
        r == (blen(s@) <= limit),
{
    let mut total: usize = 0;
    let mut i: usize = 0;
    while i < s.len()
        invariant
            i <= s@.len(),
            total == blen(s@.take(i as int)),
            total <= limit,
        decreases s@.len() - i,
    {
        proof {
            lemma_blen_take_step(s@, i as int);
        }
        let w = width_of(s[i]);
        if w > limit - total {
            proof {
                lemma_blen_prefix_le(s@, i as int + 1);
            }
            return false;
        }
        total = total + w;
        i = i + 1;
    }
    assert(s@.take(i as int) =~= s@);
    true
}

proof fn lemma_blen_prefix_le(s: Seq<char>, k: int)
    requires
        0 <= k <= s.len(),
    ensures
        blen(s.take(k)) <= blen(s),
    decreases s.len() - k,
{
    if k < s.len() {
        lemma_blen_take_step(s, k);
        lemma_blen_prefix_le(s, k + 1);
    } else {
        assert(s.take(k) =~= s);
    }
}

// ---------------------------------------------------------------------------
// Shaping text into one bounded line.

/// Whitespace runs collapsed to one space, without leading or trailing
/// whitespace: the words of the text joined by single spaces. The second
/// component says whether a space is owed before the next word.
pub open spec fn squeeze(s: Seq<char>) -> (Seq<char>, bool)
    decreases s.len(),
{
    if s.len() == 0 {
        (Seq::empty(), false)
    } else {
        let (out, pending) = squeeze(s.drop_last());
        let c = s.last();
        if is_whitespace(c) {
            (out, pending || out.len() > 0)
        } else if pending {
            (out.push(' ').push(c), false)
        } else {
            (out.push(c), false)
        }
    }
}

pub open spec fn one_line_spec(s: Seq<char>) -> Seq<char> {
    squeeze(s).0
}

fn one_line_chars(s: &Vec<char>) -> (r: Vec<char>)
    ensures
        r@ == one_line_spec(s@),
{
    let mut out: Vec<char> = Vec::new();
    let mut pending = false;
    let mut i: usize = 0;
    while i < s.len()
        invariant
            i <= s@.len(),
            (out@, pending) == squeeze(s@.take(i as int)),
        decreases s@.len() - i,
    {
        let c = s[i];
        assert(s@.take(i as int + 1).drop_last() =~= s@.take(i as int));
        if char_is_whitespace(c) {
            if out.len() > 0 {
                pending = true;
            }
        } else {
            if pending {
                out.push(' ');
                pending = false;
            }
            out.push(c);
        }
        i = i + 1;
    }
    assert(s@.take(i as int) =~= s@);
    out
}

/// Collapse whitespace runs, newlines included, so that one entity is one
/// line.
pub fn one_line(text: &str) -> (r: String)
    ensures
        r@ == one_line_spec(text@),
{
    let chars = chars_of(text);
    string_from_chars(one_line_chars(&chars))
}

/// The longest prefix of `s` whose encoding fits in `limit` bytes: the cut
/// that walks back to a character boundary.
pub open spec fn fit_count(s: Seq<char>, limit: nat) -> nat
    decreases s.len(),
{
    if blen(s) <= limit {
        s.len()
    } else if s.len() == 0 {
        0
    } else {
        fit_count(s.drop_last(), limit)
    }
}

/// The index of the last space, if any.
pub open spec fn last_space(s: Seq<char>) -> Option<nat>
    decreases s.len(),
{
    if s.len() == 0 {
        None
    } else if s.last() == ' ' {
        Some((s.len() - 1) as nat)
    } else {
        last_space(s.drop_last())
    }
}

/// Trailing whitespace removed.
pub open spec fn trim_end(s: Seq<char>) -> Seq<char>
    decreases s.len(),
{
    if s.len() > 0 && is_whitespace(s.last()) {
        trim_end(s.drop_last())
    } else {
        s
    }
}

pub open spec fn ellipsis() -> char {
    '\u{2026}'
}

/// Cut to at most `cap` bytes on a word boundary, marking a cut with `…`.
pub open spec fn clip_spec(text: Seq<char>, cap: nat) -> (Seq<char>, bool) {
    let t = one_line_spec(text);
    if blen(t) <= cap {
        (t, false)
    } else {
        let end: nat = if cap >= 3 { (cap - 3) as nat } else { 0 };
        let head = t.take(fit_count(t, end) as int);
        let head = match last_space(head) {
            Some(space) => head.take(space as int),
            None => head,
        };
        (trim_end(head).push(ellipsis()), true)
    }
}

fn fit_count_exec(s: &Vec<char>, limit: usize) -> (r: usize)
    ensures
        r == fit_count(s@, limit as nat),
        r <= s@.len(),
{
    let mut k = s.len();
    let mut v = s.clone();
    loop
        invariant
            k == v@.len(),
            v@ == s@.take(k as int),
            fit_count(s@, limit as nat) == fit_count(v@, limit as nat),
            k <= s@.len(),
        decreases k,
    {
        if fits_within(&v, limit) || k == 0 {
            return k;
        }
        v.pop();
        k = k - 1;
        assert(v@ =~= s@.take(k as int));
    }
}

fn last_space_exec(s: &Vec<char>) -> (r: Option<usize>)
    ensures
        match r {
            Some(i) => last_space(s@) == Some(i as nat) && i < s@.len(),
            None => last_space(s@) is None,
        },
{
    let mut k = s.len();
    assert(s@.take(k as int) =~= s@);
    while k > 0
        invariant
            k <= s@.len(),
            last_space(s@) == last_space(s@.take(k as int)),
        decreases k,
    {
        assert(s@.take(k as int).drop_last() =~= s@.take(k as int - 1));
        if s[k - 1] == ' ' {
            return Some(k - 1);
        }
        k = k - 1;
    }
    None
}

fn trim_end_exec(s: Vec<char>) -> (r: Vec<char>)
    ensures
        r@ == trim_end(s@),
{
    let mut v = s;
    let ghost orig = v@;
    while v.len() > 0 && char_is_whitespace(v[v.len() - 1])
        invariant
            trim_end(orig) == trim_end(v@),
        decreases v@.len(),
    {
        v.pop();
    }
    v
}

fn take_chars(s: &Vec<char>, n: usize) -> (r: Vec<char>)
    requires
        n <= s@.len(),
    ensures
        r@ == s@.take(n as int),
{
    let mut r: Vec<char> = Vec::new();
    let mut i: usize = 0;
    while i < n
        invariant
            i <= n <= s@.len(),
            r@ == s@.take(i as int),
        decreases n - i,
    {
        r.push(s[i]);
        i = i + 1;
        assert(r@ =~= s@.take(i as int));
    }
    r
}

fn clip_chars(text: &Vec<char>, cap: usize) -> (r: (Vec<char>, bool))
    ensures
        (r.0@, r.1) == clip_spec(text@, cap as nat),
{
    let t = one_line_chars(text);
    if fits_within(&t, cap) {
        return (t, false);
    }
    let end: usize = if cap >= 3 { cap - 3 } else { 0 };
    let n = fit_count_exec(&t, end);
    let head = take_chars(&t, n);
    let head = match last_space_exec(&head) {
        Some(space) => take_chars(&head, space),
        None => head,
    };
    let mut out = trim_end_exec(head);
    out.push('\u{2026}');
    (out, true)
}

/// Cut to at most `cap` bytes on a word boundary, marking a cut with `…`.
pub fn clip(text: &str, cap: usize) -> (r: (String, bool))
    ensures
        (r.0@, r.1) == clip_spec(text@, cap as nat),
{
    let chars = chars_of(text);
    let (out, cut) = clip_chars(&chars, cap);
    (string_from_chars(out), cut)
}

/// The index of the first full stop followed by a space, from `i` on.
pub open spec fn sentence_end_from(t: Seq<char>, i: nat) -> Option<nat>
    decreases t.len() - i,
{
    if i + 1 >= t.len() {
        None
    } else if t[i as int] == '.' && t[i + 1 as int] == ' ' {
        Some(i)
    } else {
        sentence_end_from(t, i + 1)
    }
}

/// The first sentence, clipped to `cap`; a dropped remainder counts as a cut
/// and is marked ` …`.
pub open spec fn headline_spec(text: Seq<char>, cap: nat) -> (Seq<char>, bool) {
    let t = one_line_spec(text);
    match sentence_end_from(t, 0) {
        Some(end) => (clip_spec(t.take(end + 1 as int).push(' ').push(ellipsis()), cap).0, true),
        None => clip_spec(t, cap),
    }
}

fn sentence_end(t: &Vec<char>) -> (r: Option<usize>)
    ensures
        match r {
            Some(i) => sentence_end_from(t@, 0) == Some(i as nat) && i + 1 < t.len(),
            None => sentence_end_from(t@, 0) is None,
        },
{
    let mut i: usize = 0;
    while t.len() > 0 && i < t.len() - 1
        invariant
            i <= t@.len(),
            sentence_end_from(t@, 0) == sentence_end_from(t@, i as nat),
        decreases t@.len() - i,
    {
        if t[i] == '.' && t[i + 1] == ' ' {
            return Some(i);
        }
        i = i + 1;
    }
    None
}

fn headline_chars(text: &Vec<char>, cap: usize) -> (r: (Vec<char>, bool))
    ensures
        (r.0@, r.1) == headline_spec(text@, cap as nat),
{
    let t = one_line_chars(text);
    match sentence_end(&t) {
        Some(end) => {
            let mut s = take_chars(&t, end + 1);
            s.push(' ');
            s.push('\u{2026}');
            let (c, _) = clip_chars(&s, cap);
            (c, true)
        },
        None => clip_chars(&t, cap),
    }
}

/// The first sentence, clipped to `cap`; a dropped remainder counts as a cut
/// and is marked ` …`.
pub fn headline(text: &str, cap: usize) -> (r: (String, bool))
    ensures
        (r.0@, r.1) == headline_spec(text@, cap as nat),
{
    let chars = chars_of(text);
    let (out, cut) = headline_chars(&chars, cap);
    (string_from_chars(out), cut)
}

// ---------------------------------------------------------------------------
// What the wake reports.

/// How an item came to be listed. Declaration order is priority order within
/// a section.
#[derive(Clone, Copy, Debug, PartialEq, Eq, Structural, PartialOrd, Ord, Hash)]
pub enum Marker {
    /// Recorded since the checkpoint and already stale.
    StaleRecorded,
    /// Current at the checkpoint, stale now.
    Stale,
    Recorded,
    /// Superseded or retired claim, or closed transaction.
    Ended,
    Open,
}

/// What the renderer may upgrade from its short form to its full form.
#[derive(Clone, Copy, Debug, PartialEq, Eq, Structural, PartialOrd, Ord, Hash)]
pub enum Candidate {
    Note,
    Item(EntityRef),
}

pub open spec fn entity_id(e: EntityRef) -> u64 {
    match e {
        EntityRef::Claim(id) => id,
        EntityRef::Observation(id) => id,
        EntityRef::Finding(id) => id,
        EntityRef::Transaction(id) => id,
        EntityRef::Knowledge(id) => id,
    }
}

pub open spec fn kind_letter(e: EntityRef) -> char {
    match e {
        EntityRef::Claim(_) => 'c',
        EntityRef::Observation(_) => 'o',
        EntityRef::Finding(_) => 'f',
        EntityRef::Transaction(_) => 't',
        EntityRef::Knowledge(_) => 'k',
    }
}

/// How an entity is written: its kind letter and its id, as in `c12`.
pub open spec fn entity_label(e: EntityRef) -> Seq<char> {
    seq![kind_letter(e)] + decimal(entity_id(e) as nat)
}

pub open spec fn kind_rank_spec(e: EntityRef) -> u8 {
    match e {
        EntityRef::Claim(_) => 0,
        EntityRef::Observation(_) => 1,
        EntityRef::Finding(_) => 2,
        EntityRef::Transaction(_) => 3,
        EntityRef::Knowledge(_) => 4,
    }
}

pub open spec fn marker_rank(m: Marker) -> u8 {
    match m {
        Marker::StaleRecorded => 0,
        Marker::Stale => 1,
        Marker::Recorded => 2,
        Marker::Ended => 3,
        Marker::Open => 4,
    }
}

pub open spec fn marker_symbol(m: Marker) -> Seq<char> {
    match m {
        Marker::StaleRecorded => seq!['!', '+'],
        Marker::Stale => seq!['!'],
        Marker::Recorded => seq!['+'],
        Marker::Ended => seq!['-'],
        Marker::Open => seq!['o', 'p', 'e', 'n'],
    }
}

pub open spec fn is_stale_marker(m: Marker) -> bool {
    m is StaleRecorded || m is Stale
}

impl EntityRef {
    pub fn id(&self) -> (r: u64)
        ensures
            r == entity_id(*self),
    {
        match self {
            EntityRef::Claim(id) => *id,
            EntityRef::Observation(id) => *id,
            EntityRef::Finding(id) => *id,
            EntityRef::Transaction(id) => *id,
            EntityRef::Knowledge(id) => *id,
        }
    }

    /// The entity as it is written, e.g. `c12`.
    pub fn label(&self) -> (r: String)
        ensures
            r@ == entity_label(*self),
    {
        let mut out: Vec<char> = Vec::new();
        self.push_label(&mut out);
        string_from_chars(out)
    }

    fn push_label(&self, out: &mut Vec<char>)
        ensures
            final(out)@ == old(out)@ + entity_label(*self),
    {
        let letter = match self {
            EntityRef::Claim(_) => 'c',
            EntityRef::Observation(_) => 'o',
            EntityRef::Finding(_) => 'f',
            EntityRef::Transaction(_) => 't',
            EntityRef::Knowledge(_) => 'k',
        };
        out.push(letter);
        push_number(out, self.id());
        assert(final(out)@ =~= old(out)@ + entity_label(*self));
    }
}

/// Append the decimal rendering of `n`.
fn push_number(out: &mut Vec<char>, n: u64)
    ensures
        final(out)@ == old(out)@ + decimal(n as nat),
{
    let mut s = String::new();
    push_decimal(&mut s, n);
    let mut digits = chars_of(s.as_str());
    out.append(&mut digits);
}

/// Append the characters of `s`.
fn push_text(out: &mut Vec<char>, s: &str)
    ensures
        final(out)@ == old(out)@ + s@,
{
    let mut chars = chars_of(s);
    out.append(&mut chars);
}

fn push_chars(out: &mut Vec<char>, s: &Vec<char>)
    ensures
        final(out)@ == old(out)@ + s@,
{
    let mut chars = s.clone();
    proof {
        assert(chars@ =~= s@);
    }
    out.append(&mut chars);
}

/// The rank of an entity's kind in listing order: claims, observations,
/// findings, transactions, then knowledge.
pub fn kind_rank(entity: EntityRef) -> (r: u8)
    ensures
        r == kind_rank_spec(entity),
{
    match entity {
        EntityRef::Claim(_) => 0,
        EntityRef::Observation(_) => 1,
        EntityRef::Finding(_) => 2,
        EntityRef::Transaction(_) => 3,
        EntityRef::Knowledge(_) => 4,
    }
}

impl Marker {
    pub fn rank(self) -> (r: u8)
        ensures
            r == marker_rank(self),
    {
        match self {
            Marker::StaleRecorded => 0,
            Marker::Stale => 1,
            Marker::Recorded => 2,
            Marker::Ended => 3,
            Marker::Open => 4,
        }
    }

    /// The short sign of the marker: `!+`, `!`, `+`, `-` or `open`.
    pub fn symbol(self) -> (r: &'static str)
        ensures
            r@ == marker_symbol(self),
    {
        proof {
            reveal_strlit("!+");
            reveal_strlit("!");
            reveal_strlit("+");
            reveal_strlit("-");
            reveal_strlit("open");
        }
        match self {
            Marker::StaleRecorded => "!+",
            Marker::Stale => "!",
            Marker::Recorded => "+",
            Marker::Ended => "-",
            Marker::Open => "open",
        }
    }

    pub fn is_stale(self) -> (r: bool)
        ensures
            r == is_stale_marker(self),
    {
        match self {
            Marker::StaleRecorded | Marker::Stale => true,
            _ => false,
        }
    }
}

pub open spec fn source_label_spec(state: SourceState) -> Seq<char> {
    match state {
        SourceState::Changed => seq!['c', 'h', 'a', 'n', 'g', 'e', 'd'],
        SourceState::Unavailable => seq!['u', 'n', 'a', 'v', 'a', 'i', 'l', 'a', 'b', 'l', 'e'],
        SourceState::Unknown => seq!['u', 'n', 'k', 'n', 'o', 'w', 'n'],
        SourceState::Current => seq!['c', 'u', 'r', 'r', 'e', 'n', 't'],
    }
}

pub fn source_label(state: SourceState) -> (r: &'static str)
    ensures
        r@ == source_label_spec(state),
{
    proof {
        reveal_strlit("changed");
        reveal_strlit("unavailable");
        reveal_strlit("unknown");
        reveal_strlit("current");
    }
    match state {
        SourceState::Changed => "changed",
        SourceState::Unavailable => "unavailable",
        SourceState::Unknown => "unknown",
        SourceState::Current => "current",
    }
}

/// An open or newly changed entity as the wake lists it.
pub struct WakeItem {
    pub marker: Marker,
    pub entity: EntityRef,
    pub text: String,
}

pub struct WakeItemView {
    pub marker: Marker,
    pub entity: EntityRef,
    pub text: Seq<char>,
}

impl View for WakeItem {
    type V = WakeItemView;

    open spec fn view(&self) -> WakeItemView {
        WakeItemView { marker: self.marker, entity: self.entity, text: self.text@ }
    }
}

impl Clone for WakeItem {
    fn clone(&self) -> (r: Self)
        ensures
            r@ == self@,
    {
        WakeItem { marker: self.marker, entity: self.entity, text: self.text.clone() }
    }
}

/// A governing knowledge binding as the wake shows it: a pointer, never a
/// source body.
pub struct WakeBinding {
    pub id: u64,
    pub headline: String,
    pub reference: Option<String>,
    pub source: Option<SourceState>,
}

pub struct WakeBindingView {
    pub id: u64,
    pub headline: Seq<char>,
    pub reference: Option<Seq<char>>,
    pub source: Option<SourceState>,
}

impl View for WakeBinding {
    type V = WakeBindingView;

    open spec fn view(&self) -> WakeBindingView {
        WakeBindingView {
            id: self.id,
            headline: self.headline@,
            reference: opt_str(self.reference),
            source: self.source,
        }
    }
}

impl Clone for WakeBinding {
    fn clone(&self) -> (r: Self)
        ensures
            r@ == self@,
    {
        WakeBinding {
            id: self.id,
            headline: self.headline.clone(),
            reference: clone_opt_string(&self.reference),
            source: self.source,
        }
    }
}

/// A changed or unavailable source should change what the reader trusts.
pub open spec fn needs_attention_spec(b: WakeBindingView) -> bool {
    b.source == Some(SourceState::Changed) || b.source == Some(SourceState::Unavailable)
}

impl WakeBinding {
    pub fn needs_attention(&self) -> (r: bool)
        ensures
            r == needs_attention_spec(self@),
    {
        match self.source {
            Some(SourceState::Changed) | Some(SourceState::Unavailable) => true,
            _ => false,
        }
    }
}

/// The latest (or the chosen) checkpoint and what happened after it.
pub struct WakeCheckpoint {
    pub label: String,
    pub note: Option<String>,
    pub news: Vec<WakeItem>,
    pub reads_captured: usize,
    pub goal_changed: bool,
}

pub struct WakeCheckpointView {
    pub label: Seq<char>,
    pub note: Option<Seq<char>>,
    pub news: Seq<WakeItemView>,
    pub reads_captured: usize,
    pub goal_changed: bool,
}

impl View for WakeCheckpoint {
    type V = WakeCheckpointView;

    open spec fn view(&self) -> WakeCheckpointView {
        WakeCheckpointView {
            label: self.label@,
            note: opt_str(self.note),
            news: vseq(self.news@),
            reads_captured: self.reads_captured,
            goal_changed: self.goal_changed,
        }
    }
}

impl Default for WakeCheckpoint {
    fn default() -> (r: Self)
        ensures
            r@ == (WakeCheckpointView {
                label: Seq::empty(),
                note: None,
                news: Seq::empty(),
                reads_captured: 0,
                goal_changed: false,
            }),
    {
        let r = WakeCheckpoint {
            label: String::new(),
            note: None,
            news: Vec::new(),
            reads_captured: 0,
            goal_changed: false,
        };
        assert(r@.news =~= Seq::<WakeItemView>::empty());
        r
    }
}

/// Everything the wake reports, as plain data.
pub struct WakeInput {
    pub goal: Option<String>,
    pub checkpoint: Option<WakeCheckpoint>,
    pub active_claims: usize,
    /// Ids of active claims served stale.
    pub stale_claim_ids: Vec<u64>,
    /// Open findings and transactions.
    pub open: Vec<WakeItem>,
    /// Applicable knowledge bindings, already ranked; the renderer never
    /// re-ranks them.
    pub governs: Vec<WakeBinding>,
}

pub struct WakeInputView {
    pub goal: Option<Seq<char>>,
    pub checkpoint: Option<WakeCheckpointView>,
    pub active_claims: usize,
    pub stale_claim_ids: Seq<u64>,
    pub open: Seq<WakeItemView>,
    pub governs: Seq<WakeBindingView>,
}

impl View for WakeInput {
    type V = WakeInputView;

    open spec fn view(&self) -> WakeInputView {
        WakeInputView {
            goal: opt_str(self.goal),
            checkpoint: match self.checkpoint {
                Some(c) => Some(c@),
                None => None,
            },
            active_claims: self.active_claims,
            stale_claim_ids: self.stale_claim_ids@,
            open: vseq(self.open@),
            governs: vseq(self.governs@),
        }
    }
}

impl Default for WakeInput {
    fn default() -> (r: Self)
        ensures
            r@ == (WakeInputView {
                goal: None,
                checkpoint: None,
                active_claims: 0,
                stale_claim_ids: Seq::empty(),
                open: Seq::empty(),
                governs: Seq::empty(),
            }),
    {
        let r = WakeInput {
            goal: None,
            checkpoint: None,
            active_claims: 0,
            stale_claim_ids: Vec::new(),
            open: Vec::new(),
            governs: Vec::new(),
        };
        assert(r@.open =~= Seq::<WakeItemView>::empty());
        assert(r@.governs =~= Seq::<WakeBindingView>::empty());
        r
    }
}

// ---------------------------------------------------------------------------
// Contract order.

/// Listing order: marker priority, then kind, newest first.
pub open spec fn item_le(a: WakeItemView, b: WakeItemView) -> bool {
    ||| marker_rank(a.marker) < marker_rank(b.marker)
    ||| marker_rank(a.marker) == marker_rank(b.marker) && kind_rank_spec(a.entity) < kind_rank_spec(
        b.entity,
    )
    ||| marker_rank(a.marker) == marker_rank(b.marker) && kind_rank_spec(a.entity)
        == kind_rank_spec(b.entity) && entity_id(a.entity) >= entity_id(b.entity)
}

pub open spec fn item_order() -> spec_fn(WakeItemView, WakeItemView) -> bool {
    |a: WakeItemView, b: WakeItemView| item_le(a, b)
}

/// Newest (largest) id first.
pub open spec fn id_order() -> spec_fn(u64, u64) -> bool {
    |a: u64, b: u64| a >= b
}

fn item_le_exec(a: &WakeItem, b: &WakeItem) -> (r: bool)
    ensures
        r == item_le(a@, b@),
{
    let (ma, mb) = (a.marker.rank(), b.marker.rank());
    let (ka, kb) = (kind_rank(a.entity), kind_rank(b.entity));
    ma < mb || (ma == mb && ka < kb) || (ma == mb && ka == kb && a.entity.id() >= b.entity.id())
}

fn sort_items(items: &Vec<WakeItem>) -> (r: Vec<WakeItem>)
    ensures
        vseq(r@) == sort_by(vseq(items@), item_order()),
{
    let mut out: Vec<WakeItem> = Vec::new();
    let mut i: usize = 0;
    while i < items.len()
        invariant
            i <= items@.len(),
            vseq(out@) == sort_by(vseq(items@).take(i as int), item_order()),
        decreases items@.len() - i,
    {
        let x = items[i].clone();
        let mut j = out.len();
        while j > 0 && !item_le_exec(&out[j - 1], &x)
            invariant
                j <= out@.len(),
                forall|k: int| j <= k < out@.len() ==> !item_le(#[trigger] out@[k]@, x@),
            decreases j,
        {
            j = j - 1;
        }
        proof {
            let so = vseq(out@);
            assert forall|k: int| j <= k < so.len() implies !(item_order())(#[trigger] so[k], x@) by {
                assert(so[k] == out@[k]@);
            }
            if j > 0 {
                assert(so[j - 1] == out@[j - 1]@);
            }
            lemma_insert_by_at(so, x@, item_order(), j as int);
            assert(vseq(items@).take(i as int + 1).drop_last() =~= vseq(items@).take(
                i as int,
            ));
            assert(vseq(items@).take(i as int + 1).last() == items[i as int]@);
        }
        let ghost before = out@;
        out.insert(j, x);
        proof {
            assert(vseq(out@) =~= vseq(before).insert(j as int, x@));
        }
        i = i + 1;
    }
    assert(vseq(items@).take(i as int) =~= vseq(items@));
    out
}

fn sort_ids_newest_first(ids: &Vec<u64>) -> (r: Vec<u64>)
    ensures
        r@ == sort_by(ids@, id_order()),
{
    let mut out: Vec<u64> = Vec::new();
    let mut i: usize = 0;
    while i < ids.len()
        invariant
            i <= ids@.len(),
            out@ == sort_by(ids@.take(i as int), id_order()),
        decreases ids@.len() - i,
    {
        let x = ids[i];
        let mut j = out.len();
        while j > 0 && out[j - 1] < x
            invariant
                j <= out@.len(),
                forall|k: int| j <= k < out@.len() ==> #[trigger] out@[k] < x,
            decreases j,
        {
            j = j - 1;
        }
        proof {
            lemma_insert_by_at(out@, x, id_order(), j as int);
            assert(ids@.take(i as int + 1).drop_last() =~= ids@.take(i as int));
        }
        out.insert(j, x);
        i = i + 1;
    }
    assert(ids@.take(i as int) =~= ids@);
    out
}

/// Every list in contract order, so that rendering never depends on how the
/// caller assembled the input: markers by priority, findings before
/// transactions, newest first; stale claim ids newest first.
pub open spec fn normalized_spec(input: WakeInputView) -> WakeInputView {
    WakeInputView {
        checkpoint: match input.checkpoint {
            Some(c) => Some(WakeCheckpointView { news: sort_by(c.news, item_order()), ..c }),
            None => None,
        },
        stale_claim_ids: sort_by(input.stale_claim_ids, id_order()),
        open: sort_by(input.open, item_order()),
        ..input
    }
}

fn clone_bindings(v: &Vec<WakeBinding>) -> (r: Vec<WakeBinding>)
    ensures
        vseq(r@) == vseq(v@),
{
    let mut r: Vec<WakeBinding> = Vec::new();
    let mut i: usize = 0;
    while i < v.len()
        invariant
            i <= v@.len(),
            vseq(r@) == vseq(v@).take(i as int),
        decreases v.len() - i,
    {
        let x = v[i].clone();
        let ghost before = r@;
        r.push(x);
        assert(vseq(r@) =~= vseq(before).push(x@));
        assert(vseq(r@) =~= vseq(v@).take(i + 1));
        i = i + 1;
    }
    assert(vseq(v@).take(v@.len() as int) =~= vseq(v@));
    r
}

/// Sort every list into its contract order.
pub fn normalized(input: &WakeInput) -> (r: WakeInput)
    ensures
        r@ == normalized_spec(input@),
{
    let checkpoint = match &input.checkpoint {
        Some(c) => Some(
            WakeCheckpoint {
                label: c.label.clone(),
                note: clone_opt_string(&c.note),
                news: sort_items(&c.news),
                reads_captured: c.reads_captured,
                goal_changed: c.goal_changed,
            },
        ),
        None => None,
    };
    let r = WakeInput {
        goal: clone_opt_string(&input.goal),
        checkpoint,
        active_claims: input.active_claims,
        stale_claim_ids: sort_ids_newest_first(&input.stale_claim_ids),
        open: sort_items(&input.open),
        governs: clone_bindings(&input.governs),
    };
    r
}

pub open spec fn is_quiet_spec(input: WakeInputView) -> bool {
    input.goal is None && input.checkpoint is None && input.active_claims == 0 && input.open.len()
        == 0 && input.governs.len() == 0
}

/// Nothing to orient to: no goal, no checkpoint, no active claim, no open
/// work and no governing knowledge.
pub fn is_quiet(input: &WakeInput) -> (r: bool)
    ensures
        r == is_quiet_spec(input@),
{
    input.goal.is_none() && input.checkpoint.is_none() && input.active_claims == 0
        && input.open.len() == 0 && input.governs.len() == 0
}

// ---------------------------------------------------------------------------
// What may be upgraded, in priority order.

pub open spec fn listed_len(n: nat, cap: nat) -> nat {
    if n < cap {
        n
    } else {
        cap
    }
}

/// The first `ID_LIST_CAP` items.
pub open spec fn listed_spec(items: Seq<WakeItemView>) -> Seq<WakeItemView> {
    items.take(listed_len(items.len(), ID_LIST_CAP as nat) as int)
}

pub open spec fn governs_listed(bindings: Seq<WakeBindingView>) -> Seq<WakeBindingView> {
    bindings.take(listed_len(bindings.len(), GOVERNS_LIST_CAP as nat) as int)
}

pub open spec fn news_listed(input: WakeInputView) -> Seq<WakeItemView> {
    match input.checkpoint {
        Some(c) => listed_spec(c.news),
        None => Seq::empty(),
    }
}

/// The bindings whose need of attention is `attention`, as candidates.
pub open spec fn binding_candidates(bs: Seq<WakeBindingView>, attention: bool) -> Seq<Candidate>
    decreases bs.len(),
{
    if bs.len() == 0 {
        Seq::empty()
    } else {
        let rest = binding_candidates(bs.drop_last(), attention);
        if needs_attention_spec(bs.last()) == attention {
            rest.push(Candidate::Item(EntityRef::Knowledge(bs.last().id)))
        } else {
            rest
        }
    }
}

/// Which markers a pass over items selects: stale ones (0), all (1), or
/// newly recorded ones (2).
pub open spec fn selects(mode: u8, m: Marker) -> bool {
    if mode == 0 {
        is_stale_marker(m)
    } else if mode == 2 {
        m is Recorded
    } else {
        true
    }
}

pub open spec fn item_candidates(items: Seq<WakeItemView>, mode: u8) -> Seq<Candidate>
    decreases items.len(),
{
    if items.len() == 0 {
        Seq::empty()
    } else {
        let rest = item_candidates(items.drop_last(), mode);
        if selects(mode, items.last().marker) {
            rest.push(Candidate::Item(items.last().entity))
        } else {
            rest
        }
    }
}

/// Upgrade order: governing bindings whose source changed or became
/// unavailable, newly stale news, the full checkpoint note, the other
/// governing bindings, open work, then new claims. Ended entities are never
/// candidates: their text is what is no longer believed.
pub open spec fn candidates_spec(input: WakeInputView) -> Seq<Candidate> {
    let g = governs_listed(input.governs);
    let news = news_listed(input);
    let note = match input.checkpoint {
        Some(c) => if c.note is Some {
            seq![Candidate::Note]
        } else {
            Seq::empty()
        },
        None => Seq::empty(),
    };
    binding_candidates(g, true) + item_candidates(news, 0) + note + binding_candidates(g, false)
        + item_candidates(listed_spec(input.open), 1) + item_candidates(news, 2)
}

fn push_binding_candidates(out: &mut Vec<Candidate>, bs: &Vec<WakeBinding>, n: usize, attention: bool)
    requires
        n <= bs@.len(),
    ensures
        final(out)@ == old(out)@ + binding_candidates(vseq(bs@).take(n as int), attention),
{
    let ghost start = out@;
    let mut i: usize = 0;
    while i < n
        invariant
            i <= n <= bs@.len(),
            out@ == start + binding_candidates(vseq(bs@).take(i as int), attention),
        decreases n - i,
    {
        let ghost t = vseq(bs@).take(i as int + 1);
        assert(t.drop_last() =~= vseq(bs@).take(i as int));
        assert(t.last() == bs@[i as int]@);
        if bs[i].needs_attention() == attention {
            out.push(Candidate::Item(EntityRef::Knowledge(bs[i].id)));
        }
        i = i + 1;
    }
}

fn selects_exec(mode: u8, m: Marker) -> (r: bool)
    ensures
        r == selects(mode, m),
{
    if mode == 0 {
        m.is_stale()
    } else if mode == 2 {
        match m {
            Marker::Recorded => true,
            _ => false,
        }
    } else {
        true
    }
}

fn push_item_candidates(out: &mut Vec<Candidate>, items: &Vec<WakeItem>, n: usize, mode: u8)
    requires
        n <= items@.len(),
    ensures
        final(out)@ == old(out)@ + item_candidates(vseq(items@).take(n as int), mode),
{
    let ghost start = out@;
    let mut i: usize = 0;
    while i < n
        invariant
            i <= n <= items@.len(),
            out@ == start + item_candidates(vseq(items@).take(i as int), mode),
        decreases n - i,
    {
        let ghost t = vseq(items@).take(i as int + 1);
        assert(t.drop_last() =~= vseq(items@).take(i as int));
        assert(t.last() == items@[i as int]@);
        if selects_exec(mode, items[i].marker) {
            out.push(Candidate::Item(items[i].entity));
        }
        i = i + 1;
    }
}

fn listed_count(n: usize, cap: usize) -> (r: usize)
    ensures
        r == listed_len(n as nat, cap as nat),
{
    if n < cap {
        n
    } else {
        cap
    }
}

/// The upgrade candidates of an input, in priority order.
pub fn candidates(input: &WakeInput) -> (r: Vec<Candidate>)
    ensures
        r@ == candidates_spec(input@),
{
    let g = listed_count(input.governs.len(), GOVERNS_LIST_CAP);
    let mut out: Vec<Candidate> = Vec::new();
    push_binding_candidates(&mut out, &input.governs, g, true);
    let ghost a = out@;
    match &input.checkpoint {
        Some(c) => {
            let n = listed_count(c.news.len(), ID_LIST_CAP);
            push_item_candidates(&mut out, &c.news, n, 0);
        },
        None => {},
    }
    let ghost b = out@;
    let has_note = match &input.checkpoint {
        Some(c) => c.note.is_some(),
        None => false,
    };
    if has_note {
        out.push(Candidate::Note);
    }
    let ghost c0 = out@;
    push_binding_candidates(&mut out, &input.governs, g, false);
    let ghost d = out@;
    let o = listed_count(input.open.len(), ID_LIST_CAP);
    push_item_candidates(&mut out, &input.open, o, 1);
    let ghost e = out@;
    match &input.checkpoint {
        Some(c) => {
            let n = listed_count(c.news.len(), ID_LIST_CAP);
            push_item_candidates(&mut out, &c.news, n, 2);
        },
        None => {},
    }
    proof {
        let iv = input@;
        let gl = governs_listed(iv.governs);
        assert(vseq(input.governs@).take(g as int) == gl);
        assert(vseq(input.open@).take(o as int) == listed_spec(iv.open));
        match iv.checkpoint {
            Some(cv) => {},
            None => {
                assert(item_candidates(news_listed(iv), 0) =~= Seq::<Candidate>::empty());
                assert(item_candidates(news_listed(iv), 2) =~= Seq::<Candidate>::empty());
                assert(b =~= a + item_candidates(news_listed(iv), 0));
            },
        }
        assert(out@ =~= candidates_spec(iv));
    }
    out
}

// ---------------------------------------------------------------------------
// Layout.

/// `parts` joined by `sep`.
pub open spec fn join(parts: Seq<Seq<char>>, sep: Seq<char>) -> Seq<char>
    decreases parts.len(),
{
    if parts.len() == 0 {
        Seq::empty()
    } else if parts.len() == 1 {
        parts[0]
    } else {
        join(parts.drop_last(), sep) + sep + parts.last()
    }
}

/// Every line followed by a newline.
pub open spec fn lines_text(lines: Seq<Seq<char>>) -> Seq<char>
    decreases lines.len(),
{
    if lines.len() == 0 {
        Seq::empty()
    } else {
        lines_text(lines.drop_last()) + lines.last() + seq!['\n']
    }
}

/// ` (+k more)`, without its leading space.
pub open spec fn more_count(k: nat) -> Seq<char> {
    "(+"@ + decimal(k) + " more)"@
}

/// The full line of a governing binding: `k3 [changed] headline → reference`,
/// the tag only when the source is not current; and whether it was cut.
#[verifier::opaque]
pub open spec fn binding_line(b: WakeBindingView) -> (Seq<char>, bool) {
    let (head, cut) = clip_spec(b.headline, ITEM_CAP as nat);
    let tag = match b.source {
        Some(state) => if state != SourceState::Current {
            " ["@ + source_label_spec(state) + "]"@
        } else {
            Seq::empty()
        },
        None => Seq::empty(),
    };
    let line = entity_label(EntityRef::Knowledge(b.id)) + tag + " "@ + head;
    match b.reference {
        Some(r) => (line + " → "@ + clip_spec(r, REFERENCE_CAP as nat).0, cut || clip_spec(
            r,
            REFERENCE_CAP as nat,
        ).1),
        None => (line, cut),
    }
}

/// Over the listed bindings: the full lines of the upgraded ones, the short
/// forms of the others (`k4`, or `k7!` when the source needs attention), and
/// how many are not shown whole.
pub open spec fn governs_parts(bs: Seq<WakeBindingView>, up: Set<Candidate>) -> (
    Seq<Seq<char>>,
    Seq<Seq<char>>,
    nat,
)
    decreases bs.len(),
{
    if bs.len() == 0 {
        (Seq::empty(), Seq::empty(), 0)
    } else {
        let (full, short, n) = governs_parts(bs.drop_last(), up);
        let b = bs.last();
        let e = EntityRef::Knowledge(b.id);
        if !up.contains(Candidate::Item(e)) {
            let flag = if needs_attention_spec(b) {
                seq!['!']
            } else {
                Seq::empty()
            };
            (full, short.push(entity_label(e) + flag), n + 1)
        } else {
            let (line, cut) = binding_line(b);
            (full.push(line), short, n + if cut {
                1nat
            } else {
                0nat
            })
        }
    }
}

/// Governing knowledge: one pointer line per upgraded binding, then one short
/// `governs:` line for the rest; and how many listed bindings are not shown
/// whole.
pub open spec fn governs_section(bs: Seq<WakeBindingView>, up: Set<Candidate>) -> (
    Seq<Seq<char>>,
    nat,
) {
    let listed = governs_listed(bs);
    let (full, short, n) = governs_parts(listed, up);
    let omitted = (bs.len() - listed.len()) as nat;
    let short = if omitted > 0 {
        short.push(more_count(omitted))
    } else {
        short
    };
    if short.len() > 0 {
        (full.push("governs: "@ + join(short, seq![' '])), n)
    } else {
        (full, n)
    }
}

/// Over the listed items: the full lines of the upgraded ones, the short line
/// of the others grouped by marker (`+ c9 c8 · - c3`), the marker last
/// written there, and how many are not shown whole.
pub open spec fn items_parts(items: Seq<WakeItemView>, up: Set<Candidate>) -> (
    Seq<Seq<char>>,
    Seq<char>,
    Option<Marker>,
    nat,
)
    decreases items.len(),
{
    if items.len() == 0 {
        (Seq::empty(), Seq::empty(), None, 0)
    } else {
        let (full, short, last, n) = items_parts(items.drop_last(), up);
        let item = items.last();
        if up.contains(Candidate::Item(item.entity)) {
            let (text, cut) = headline_spec(item.text, ITEM_CAP as nat);
            (full.push(marker_symbol(item.marker) + seq![' '] + entity_label(item.entity) + seq![' ']
                + text), short, last, n + if cut {
                1nat
            } else {
                0nat
            })
        } else {
            let short = if last != Some(item.marker) {
                (if last is Some {
                    short + " · "@
                } else {
                    short
                }) + marker_symbol(item.marker)
            } else {
                short
            };
            let last = if last != Some(item.marker) {
                Some(item.marker)
            } else {
                last
            };
            (full, short + seq![' '] + entity_label(item.entity), last, n + 1)
        }
    }
}

/// One full line per upgraded item, then one short line for the rest with an
/// explicit `(+k more)` beyond the list cap; and how many listed items are
/// not shown whole.
pub open spec fn items_section(items: Seq<WakeItemView>, up: Set<Candidate>) -> (
    Seq<Seq<char>>,
    nat,
) {
    let listed = listed_spec(items);
    let (full, short, _last, n) = items_parts(listed, up);
    let omitted = (items.len() - listed.len()) as nat;
    let short = if omitted > 0 {
        (if short.len() == 0 {
            marker_symbol(items[listed.len() as int].marker)
        } else {
            short
        }) + seq![' '] + more_count(omitted)
    } else {
        short
    };
    if short.len() > 0 {
        (full.push(short), n)
    } else {
        (full, n)
    }
}

pub open spec fn stale_ids_text(ids: Seq<u64>) -> Seq<Seq<char>>
    decreases ids.len(),
{
    if ids.len() == 0 {
        Seq::empty()
    } else {
        stale_ids_text(ids.drop_last()).push(entity_label(EntityRef::Claim(ids.last())))
    }
}

/// `claims: N active, none stale`, or the count and the newest stale ids.
pub open spec fn claims_line_spec(input: WakeInputView) -> Seq<char> {
    let stale = input.stale_claim_ids;
    let head = "claims: "@ + decimal(input.active_claims as nat);
    if stale.len() == 0 {
        head + " active, none stale"@
    } else {
        let shown = stale.take(listed_len(stale.len(), ID_LIST_CAP as nat) as int);
        let omitted = (stale.len() - shown.len()) as nat;
        head + " active, "@ + decimal(stale.len()) + " stale: "@ + join(
            stale_ids_text(shown),
            seq![' '],
        ) + if omitted > 0 {
            seq![' '] + more_count(omitted)
        } else {
            Seq::empty()
        }
    }
}

/// The checkpoint line: `stopped at label`, with the note's excerpt (or the
/// full note once upgraded); and whether the note was cut.
pub open spec fn stop_line(c: WakeCheckpointView, up: Set<Candidate>) -> (Seq<char>, nat) {
    let label = clip_spec(c.label, LABEL_CAP as nat).0;
    match c.note {
        None => ("stopped at "@ + label, 0),
        Some(note) => {
            let (text, cut) = if up.contains(Candidate::Note) {
                clip_spec(note, NOTE_FULL_CAP as nat)
            } else {
                headline_spec(note, NOTE_EXCERPT_CAP as nat)
            };
            ("stopped at "@ + label + ": "@ + text, if cut {
                1nat
            } else {
                0nat
            })
        },
    }
}

/// What happened since the checkpoint besides the listed news.
pub open spec fn activity(c: WakeCheckpointView) -> Seq<Seq<char>> {
    let reads = if c.reads_captured > 0 {
        seq![
            decimal(c.reads_captured as nat) + " read"@ + (if c.reads_captured == 1 {
                Seq::empty()
            } else {
                seq!['s']
            }) + " captured"@,
        ]
    } else {
        Seq::empty()
    };
    if c.goal_changed {
        reads.push("goal changed"@)
    } else {
        reads
    }
}

/// The `since then:` section: the activity line and the news.
pub open spec fn since_section(c: WakeCheckpointView, up: Set<Candidate>) -> (Seq<Seq<char>>, nat) {
    let act = activity(c);
    if c.news.len() > 0 || act.len() > 0 {
        let (lines, n) = items_section(c.news, up);
        (seq![trim_end("since then: "@ + join(act, " · "@))] + lines, n)
    } else {
        (Seq::empty(), 0)
    }
}

/// The lines of the wake for one set of upgrades, before the `more:` line,
/// and how many things they shorten. Section order is reading order; a
/// section with nothing to say is omitted.
pub open spec fn body_lines(input: WakeInputView, up: Set<Candidate>) -> (Seq<Seq<char>>, nat) {
    let (goal, n_goal) = match input.goal {
        Some(g) => {
            let (t, cut) = clip_spec(g, GOAL_CAP as nat);
            (seq!["goal: "@ + t], if cut {
                1nat
            } else {
                0nat
            })
        },
        None => (Seq::empty(), 0nat),
    };
    let (stop, n_stop) = match input.checkpoint {
        Some(c) => {
            let (l, n) = stop_line(c, up);
            (seq![l], n)
        },
        None => (Seq::empty(), 0nat),
    };
    let (gov, n_gov) = governs_section(input.governs, up);
    let (since, n_since) = match input.checkpoint {
        Some(c) => since_section(c, up),
        None => (Seq::empty(), 0nat),
    };
    let (open, n_open) = items_section(input.open, up);
    let claims = if input.active_claims > 0 {
        seq![claims_line_spec(input)]
    } else {
        Seq::empty()
    };
    (seq![HEADER@] + goal + stop + gov + since + open + claims, n_goal + n_stop + n_gov + n_since
        + n_open)
}

/// The wake laid out for one set of upgrades.
#[verifier::opaque]
pub open spec fn compose_spec(input: WakeInputView, up: Set<Candidate>) -> Seq<char> {
    let (lines, shortened) = body_lines(input, up);
    let lines = if shortened > 0 {
        lines.push(
            "more: "@ + decimal(shortened) + " shortened · workspace_status|workspace_delta full=true"@,
        )
    } else {
        lines
    };
    lines_text(lines)
}

// ---------------------------------------------------------------------------
// Layout, executed.

/// The set of upgrades a list of candidates holds.
pub open spec fn cset(v: Seq<Candidate>) -> Set<Candidate> {
    Set::new(|c: Candidate| v.contains(c))
}

fn contains_candidate(v: &Vec<Candidate>, c: Candidate) -> (r: bool)
    ensures
        r == v@.contains(c),
{
    let mut i: usize = 0;
    while i < v.len()
        invariant
            i <= v@.len(),
            forall|k: int| 0 <= k < i ==> v@[k] != c,
        decreases v@.len() - i,
    {
        if v[i] == c {
            assert(v@[i as int] == c);
            return true;
        }
        i = i + 1;
    }
    false
}

fn push_line(lines: &mut Vec<Vec<char>>, line: Vec<char>)
    ensures
        vseq(final(lines)@) == vseq(old(lines)@).push(line@),
{
    let ghost before = lines@;
    let ghost l = line@;
    lines.push(line);
    assert(vseq(lines@) =~= vseq(before).push(l));
}

fn join_exec(parts: &Vec<Vec<char>>, sep: &str) -> (r: Vec<char>)
    ensures
        r@ == join(vseq(parts@), sep@),
{
    let mut out: Vec<char> = Vec::new();
    let mut i: usize = 0;
    while i < parts.len()
        invariant
            i <= parts@.len(),
            out@ == join(vseq(parts@).take(i as int), sep@),
        decreases parts@.len() - i,
    {
        let ghost t = vseq(parts@).take(i as int + 1);
        assert(t.drop_last() =~= vseq(parts@).take(i as int));
        assert(t.last() == parts@[i as int]@);
        if i > 0 {
            push_text(&mut out, sep);
        }
        push_chars(&mut out, &parts[i]);
        proof {
            if i == 0 {
                assert(out@ =~= t[0]);
            }
        }
        i = i + 1;
    }
    assert(vseq(parts@).take(i as int) =~= vseq(parts@));
    out
}

fn push_more_count(out: &mut Vec<char>, k: usize)
    ensures
        final(out)@ == old(out)@ + more_count(k as nat),
{
    let ghost start = out@;
    push_text(out, "(+");
    push_number(out, k as u64);
    push_text(out, " more)");
    assert(out@ =~= start + more_count(k as nat));
}

fn clip_text(text: &String, cap: usize) -> (r: (Vec<char>, bool))
    ensures
        (r.0@, r.1) == clip_spec(text@, cap as nat),
{
    let chars = chars_of(text.as_str());
    clip_chars(&chars, cap)
}

fn headline_text(text: &String, cap: usize) -> (r: (Vec<char>, bool))
    ensures
        (r.0@, r.1) == headline_spec(text@, cap as nat),
{
    let chars = chars_of(text.as_str());
    headline_chars(&chars, cap)
}

fn binding_line_exec(b: &WakeBinding) -> (r: (Vec<char>, bool))
    ensures
        (r.0@, r.1) == binding_line(b@),
{
    reveal(binding_line);
    let (head, cut) = clip_text(&b.headline, ITEM_CAP);
    let mut line: Vec<char> = Vec::new();
    EntityRef::Knowledge(b.id).push_label(&mut line);
    let ghost l0 = line@;
    match b.source {
        Some(state) => {
            let current = match state {
                SourceState::Current => true,
                _ => false,
            };
            if !current {
                push_text(&mut line, " [");
                push_text(&mut line, source_label(state));
                push_text(&mut line, "]");
            }
        },
        None => {},
    }
    let ghost l1 = line@;
    push_text(&mut line, " ");
    push_chars(&mut line, &head);
    let ghost l2 = line@;
    match &b.reference {
        Some(r) => {
            let (rc, rcut) = clip_text(r, REFERENCE_CAP);
            push_text(&mut line, " → ");
            push_chars(&mut line, &rc);
            proof {
                let bv = b@;
                let tag = match bv.source {
                    Some(state) => if state != SourceState::Current {
                        " ["@ + source_label_spec(state) + "]"@
                    } else {
                        Seq::empty()
                    },
                    None => Seq::empty(),
                };
                assert(l1 =~= l0 + tag);
                assert(line@ =~= entity_label(EntityRef::Knowledge(bv.id)) + tag + " "@ + head@ + " → "@
                    + rc@);
            }
            (line, cut || rcut)
        },
        None => {
            proof {
                let bv = b@;
                let tag = match bv.source {
                    Some(state) => if state != SourceState::Current {
                        " ["@ + source_label_spec(state) + "]"@
                    } else {
                        Seq::empty()
                    },
                    None => Seq::empty(),
                };
                assert(l1 =~= l0 + tag);
                assert(line@ =~= entity_label(EntityRef::Knowledge(bv.id)) + tag + " "@ + head@);
            }
            (line, cut)
        },
    }
}

/// Governing knowledge: one pointer line per upgraded binding
/// (`k3 [changed] headline → reference`), then one short line for the rest
/// (`governs: k4 k7!`). Returns how many listed bindings are not shown whole.
#[verifier::rlimit(30)]
pub fn push_governs(lines: &mut Vec<Vec<char>>, bindings: &Vec<WakeBinding>, upgraded: &Vec<Candidate>) -> (r: usize)
    ensures
        vseq(final(lines)@) == vseq(old(lines)@) + governs_section(vseq(bindings@), cset(upgraded@)).0,
        r == governs_section(vseq(bindings@), cset(upgraded@)).1,
        r <= GOVERNS_LIST_CAP,
{
    let ghost up = cset(upgraded@);
    let ghost start = vseq(lines@);
    let g = listed_count(bindings.len(), GOVERNS_LIST_CAP);
    let mut short: Vec<Vec<char>> = Vec::new();
    let mut n: usize = 0;
    let mut i: usize = 0;
    while i < g
        invariant
            i <= g <= bindings@.len(),
            g <= GOVERNS_LIST_CAP,
            up == cset(upgraded@),
            n <= i,
            ({
                let (full, sh, k) = governs_parts(vseq(bindings@).take(i as int), up);
                vseq(lines@) == start + full && vseq(short@) == sh && n == k
            }),
        decreases g - i,
    {
        let ghost t = vseq(bindings@).take(i as int + 1);
        assert(t.drop_last() =~= vseq(bindings@).take(i as int));
        assert(t.last() == bindings@[i as int]@);
        let b = &bindings[i];
        let e = EntityRef::Knowledge(b.id);
        let ghost before_lines = vseq(lines@);
        if !contains_candidate(upgraded, Candidate::Item(e)) {
            let mut tok: Vec<char> = Vec::new();
            e.push_label(&mut tok);
            if b.needs_attention() {
                tok.push('!');
            }
            proof {
                let flag = if needs_attention_spec(b@) {
                    seq!['!']
                } else {
                    Seq::empty()
                };
                assert(tok@ =~= entity_label(e) + flag);
            }
            push_line(&mut short, tok);
            n = n + 1;
        } else {
            let (line, cut) = binding_line_exec(b);
            push_line(lines, line);
            if cut {
                n = n + 1;
            }
            proof {
                assert(vseq(lines@) =~= start + governs_parts(t, up).0);
            }
        }
        i = i + 1;
    }
    let omitted = bindings.len() - g;
    if omitted > 0 {
        let mut tok: Vec<char> = Vec::new();
        push_more_count(&mut tok, omitted);
        push_line(&mut short, tok);
    }
    proof {
        assert(vseq(bindings@).take(g as int) == governs_listed(vseq(bindings@)));
    }
    if short.len() > 0 {
        let mut line: Vec<char> = Vec::new();
        push_text(&mut line, "governs: ");
        let joined = join_exec(&short, " ");
        push_chars(&mut line, &joined);
        proof {
            reveal_strlit(" ");
            assert(" "@ =~= seq![' ']);
        }
        push_line(lines, line);
    }
    proof {
        let (full, sh, k) = governs_parts(governs_listed(vseq(bindings@)), up);
        assert(vseq(lines@) =~= start + governs_section(vseq(bindings@), up).0);
    }
    n
}

fn same_marker(last: Option<Marker>, m: Marker) -> (r: bool)
    ensures
        r == (last == Some(m)),
{
    match last {
        Some(l) => l == m,
        None => false,
    }
}

/// One full line per upgraded item, then one short line (`+ c9 c8 · - c3`)
/// for the rest with an explicit `(+k more)` beyond the list cap. Returns how
/// many listed items are not shown whole.
pub fn push_items(lines: &mut Vec<Vec<char>>, items: &Vec<WakeItem>, upgraded: &Vec<Candidate>) -> (r: usize)
    ensures
        vseq(final(lines)@) == vseq(old(lines)@) + items_section(vseq(items@), cset(upgraded@)).0,
        r == items_section(vseq(items@), cset(upgraded@)).1,
        r <= ID_LIST_CAP,
{
    let ghost up = cset(upgraded@);
    let ghost start = vseq(lines@);
    let l = listed_count(items.len(), ID_LIST_CAP);
    let mut short: Vec<char> = Vec::new();
    let mut last: Option<Marker> = None;
    let mut n: usize = 0;
    let mut i: usize = 0;
    while i < l
        invariant
            i <= l <= items@.len(),
            l <= ID_LIST_CAP,
            up == cset(upgraded@),
            n <= i,
            ({
                let (full, sh, lm, k) = items_parts(vseq(items@).take(i as int), up);
                vseq(lines@) == start + full && short@ == sh && last == lm && n == k
            }),
        decreases l - i,
    {
        let ghost t = vseq(items@).take(i as int + 1);
        assert(t.drop_last() =~= vseq(items@).take(i as int));
        assert(t.last() == items@[i as int]@);
        let item = &items[i];
        if contains_candidate(upgraded, Candidate::Item(item.entity)) {
            let (text, cut) = headline_text(&item.text, ITEM_CAP);
            let mut line: Vec<char> = Vec::new();
            push_text(&mut line, item.marker.symbol());
            line.push(' ');
            item.entity.push_label(&mut line);
            line.push(' ');
            push_chars(&mut line, &text);
            proof {
                assert(line@ =~= marker_symbol(item.marker) + seq![' '] + entity_label(item.entity) + seq![' ']
                    + text@);
            }
            push_line(lines, line);
            if cut {
                n = n + 1;
            }
            proof {
                assert(vseq(lines@) =~= start + items_parts(t, up).0);
            }
        } else {
            let ghost s0 = short@;
            if !same_marker(last, item.marker) {
                if last.is_some() {
                    push_text(&mut short, " · ");
                }
                push_text(&mut short, item.marker.symbol());
                last = Some(item.marker);
            }
            short.push(' ');
            item.entity.push_label(&mut short);
            proof {
                let (full, sh, lm, k) = items_parts(vseq(items@).take(i as int), up);
                let sh2 = if lm != Some(item.marker) {
                    (if lm is Some {
                        sh + " · "@
                    } else {
                        sh
                    }) + marker_symbol(item.marker)
                } else {
                    sh
                };
                assert(short@ =~= sh2 + seq![' '] + entity_label(item.entity));
            }
            n = n + 1;
        }
        i = i + 1;
    }
    let omitted = items.len() - l;
    let ghost sh0 = short@;
    if omitted > 0 {
        if short.len() == 0 {
            push_text(&mut short, items[l].marker.symbol());
        }
        short.push(' ');
        push_more_count(&mut short, omitted);
    }
    let ghost lines_before = vseq(lines@);
    proof {
        let iv = vseq(items@);
        assert(iv.take(l as int) == listed_spec(iv));
        if omitted > 0 {
            assert(iv[l as int] == items@[l as int]@);
            let head = if sh0.len() == 0 {
                marker_symbol(iv[l as int].marker)
            } else {
                sh0
            };
            assert(short@ =~= head + seq![' '] + more_count(omitted as nat));
        }
    }
    if short.len() > 0 {
        push_line(lines, short);
    }
    proof {
        let iv = vseq(items@);
        let (full, sh, lm, k) = items_parts(listed_spec(iv), up);
        assert(lines_before == start + full);
        assert(vseq(lines@) =~= start + items_section(iv, up).0);
    }
    n
}

fn stale_ids_exec(ids: &Vec<u64>, n: usize) -> (r: Vec<Vec<char>>)
    requires
        n <= ids@.len(),
    ensures
        vseq(r@) == stale_ids_text(ids@.take(n as int)),
{
    let mut out: Vec<Vec<char>> = Vec::new();
    let mut i: usize = 0;
    while i < n
        invariant
            i <= n <= ids@.len(),
            vseq(out@) == stale_ids_text(ids@.take(i as int)),
        decreases n - i,
    {
        assert(ids@.take(i as int + 1).drop_last() =~= ids@.take(i as int));
        let mut tok: Vec<char> = Vec::new();
        EntityRef::Claim(ids[i]).push_label(&mut tok);
        push_line(&mut out, tok);
        i = i + 1;
    }
    out
}

/// `claims: N active, none stale`, or the count and the newest stale ids.
pub fn claims_line(input: &WakeInput) -> (r: String)
    ensures
        r@ == claims_line_spec(input@),
{
    string_from_chars(claims_line_chars(input))
}

fn claims_line_chars(input: &WakeInput) -> (r: Vec<char>)
    ensures
        r@ == claims_line_spec(input@),
{
    let stale = &input.stale_claim_ids;
    let mut out: Vec<char> = Vec::new();
    push_text(&mut out, "claims: ");
    push_number(&mut out, input.active_claims as u64);
    if stale.len() == 0 {
        push_text(&mut out, " active, none stale");
        return out;
    }
    let shown = listed_count(stale.len(), ID_LIST_CAP);
    push_text(&mut out, " active, ");
    push_number(&mut out, stale.len() as u64);
    push_text(&mut out, " stale: ");
    let ids = stale_ids_exec(stale, shown);
    let joined = join_exec(&ids, " ");
    push_chars(&mut out, &joined);
    let ghost before_more = out@;
    let omitted = stale.len() - shown;
    if omitted > 0 {
        out.push(' ');
        push_more_count(&mut out, omitted);
    }
    proof {
        reveal_strlit(" ");
        assert(" "@ =~= seq![' ']);
        let iv = input@;
        let more = if omitted > 0 {
            seq![' '] + more_count(omitted as nat)
        } else {
            Seq::<char>::empty()
        };
        assert(out@ =~= before_more + more);
        let sv = iv.stale_claim_ids;
        assert(sv == stale@);
        assert(sv.take(listed_len(sv.len(), ID_LIST_CAP as nat) as int) == stale@.take(shown as int));
        assert(joined@ == join(stale_ids_text(stale@.take(shown as int)), seq![' ']));
        assert(before_more =~= "claims: "@ + decimal(iv.active_claims as nat) + " active, "@ + decimal(
            sv.len(),
        ) + " stale: "@ + joined@);
        assert(out@ =~= claims_line_spec(iv));
    }
    out
}

fn text_of_lines(lines: &Vec<Vec<char>>) -> (r: Vec<char>)
    ensures
        r@ == lines_text(vseq(lines@)),
{
    let mut out: Vec<char> = Vec::new();
    let mut i: usize = 0;
    while i < lines.len()
        invariant
            i <= lines@.len(),
            out@ == lines_text(vseq(lines@).take(i as int)),
        decreases lines@.len() - i,
    {
        let ghost t = vseq(lines@).take(i as int + 1);
        assert(t.drop_last() =~= vseq(lines@).take(i as int));
        assert(t.last() == lines@[i as int]@);
        push_chars(&mut out, &lines[i]);
        out.push('\n');
        i = i + 1;
    }
    assert(vseq(lines@).take(i as int) =~= vseq(lines@));
    out
}

fn stop_line_exec(c: &WakeCheckpoint, upgraded: &Vec<Candidate>) -> (r: (Vec<char>, usize))
    ensures
        (r.0@, r.1 as nat) == stop_line(c@, cset(upgraded@)),
        r.1 <= 1,
{
    let (label, _) = clip_text(&c.label, LABEL_CAP);
    let mut line: Vec<char> = Vec::new();
    push_text(&mut line, "stopped at ");
    push_chars(&mut line, &label);
    match &c.note {
        None => (line, 0),
        Some(note) => {
            let up = contains_candidate(upgraded, Candidate::Note);
            let (text, cut) = if up {
                clip_text(note, NOTE_FULL_CAP)
            } else {
                headline_text(note, NOTE_EXCERPT_CAP)
            };
            push_text(&mut line, ": ");
            push_chars(&mut line, &text);
            (line, if cut { 1 } else { 0 })
        },
    }
}

fn activity_exec(c: &WakeCheckpoint) -> (r: Vec<Vec<char>>)
    ensures
        vseq(r@) == activity(c@),
{
    let mut out: Vec<Vec<char>> = Vec::new();
    if c.reads_captured > 0 {
        let mut line: Vec<char> = Vec::new();
        push_number(&mut line, c.reads_captured as u64);
        push_text(&mut line, " read");
        if c.reads_captured != 1 {
            line.push('s');
        }
        push_text(&mut line, " captured");
        proof {
            let plural = if c.reads_captured == 1 {
                Seq::<char>::empty()
            } else {
                seq!['s']
            };
            assert(line@ =~= decimal(c.reads_captured as nat) + " read"@ + plural + " captured"@);
        }
        push_line(&mut out, line);
    }
    if c.goal_changed {
        let mut line: Vec<char> = Vec::new();
        push_text(&mut line, "goal changed");
        push_line(&mut out, line);
    }
    proof {
        assert(vseq(out@) =~= activity(c@));
    }
    out
}

fn push_since(lines: &mut Vec<Vec<char>>, c: &WakeCheckpoint, upgraded: &Vec<Candidate>) -> (r: usize)
    ensures
        vseq(final(lines)@) == vseq(old(lines)@) + since_section(c@, cset(upgraded@)).0,
        r == since_section(c@, cset(upgraded@)).1,
        r <= ID_LIST_CAP,
{
    let act = activity_exec(c);
    if c.news.len() > 0 || act.len() > 0 {
        let mut line: Vec<char> = Vec::new();
        push_text(&mut line, "since then: ");
        let joined = join_exec(&act, " · ");
        push_chars(&mut line, &joined);
        let line = trim_end_exec(line);
        let ghost start = vseq(lines@);
        push_line(lines, line);
        let ghost mid = vseq(lines@);
        let n = push_items(lines, &c.news, upgraded);
        proof {
            assert(vseq(lines@) =~= start + since_section(c@, cset(upgraded@)).0);
        }
        n
    } else {
        assert(vseq(lines@) =~= vseq(old(lines)@) + since_section(c@, cset(upgraded@)).0);
        0
    }
}

fn compose_chars(input: &WakeInput, upgraded: &Vec<Candidate>) -> (r: Vec<char>)
    ensures
        r@ == compose_spec(input@, cset(upgraded@)),
{
    let ghost up = cset(upgraded@);
    let ghost iv = input@;
    let mut lines: Vec<Vec<char>> = Vec::new();
    push_line(&mut lines, chars_of(HEADER));
    let ghost l_header = vseq(lines@);
    let mut shortened: usize = 0;
    match &input.goal {
        Some(g) => {
            let (t, cut) = clip_text(g, GOAL_CAP);
            let mut line: Vec<char> = Vec::new();
            push_text(&mut line, "goal: ");
            push_chars(&mut line, &t);
            push_line(&mut lines, line);
            if cut {
                shortened = shortened + 1;
            }
        },
        None => {},
    }
    let ghost l_goal = vseq(lines@);
    let ghost n_goal = shortened;
    match &input.checkpoint {
        Some(c) => {
            let (line, n) = stop_line_exec(c, upgraded);
            push_line(&mut lines, line);
            shortened = shortened + n;
        },
        None => {},
    }
    let ghost l_stop = vseq(lines@);
    let ghost n_stop = shortened;
    let n_gov = push_governs(&mut lines, &input.governs, upgraded);
    shortened = shortened + n_gov;
    let ghost l_gov = vseq(lines@);
    match &input.checkpoint {
        Some(c) => {
            let n = push_since(&mut lines, c, upgraded);
            shortened = shortened + n;
        },
        None => {},
    }
    let ghost l_since = vseq(lines@);
    let ghost n_since = shortened;
    let n_open = push_items(&mut lines, &input.open, upgraded);
    shortened = shortened + n_open;
    let ghost l_open = vseq(lines@);
    if input.active_claims > 0 {
        push_line(&mut lines, claims_line_chars(input));
    }
    let ghost l_claims = vseq(lines@);
    proof {
        let (body, n) = body_lines(iv, up);
        let goal = match iv.goal {
            Some(g) => seq!["goal: "@ + clip_spec(g, GOAL_CAP as nat).0],
            None => Seq::empty(),
        };
        assert(l_goal =~= seq![HEADER@] + goal);
        let stop = match iv.checkpoint {
            Some(c) => seq![stop_line(c, up).0],
            None => Seq::empty(),
        };
        assert(l_stop =~= seq![HEADER@] + goal + stop);
        let since = match iv.checkpoint {
            Some(c) => since_section(c, up).0,
            None => Seq::empty(),
        };
        assert(l_since =~= seq![HEADER@] + goal + stop + governs_section(iv.governs, up).0 + since);
        assert(l_claims =~= body);
        assert(shortened == n);
    }
    if shortened > 0 {
        let mut line: Vec<char> = Vec::new();
        push_text(&mut line, "more: ");
        push_number(&mut line, shortened as u64);
        push_text(&mut line, " shortened · workspace_status|workspace_delta full=true");
        push_line(&mut lines, line);
    }
    let r = text_of_lines(&lines);
    proof {
        reveal(compose_spec);
    }
    r
}

/// Lay out the wake for one set of upgrades. Section order is reading order;
/// a section with nothing to say is omitted.
pub fn compose(input: &WakeInput, upgraded: &Vec<Candidate>) -> (r: String)
    ensures
        r@ == compose_spec(input@, cset(upgraded@)),
{
    string_from_chars(compose_chars(input, upgraded))
}

// ---------------------------------------------------------------------------
// Rendering.

/// The hard budget holds whatever the input: a text beyond it is cut on a
/// character boundary and marked.
pub open spec fn enforce_budget_spec(text: Seq<char>) -> Seq<char> {
    if blen(text) <= WAKE_BUDGET_BYTES as nat {
        text
    } else {
        text.take(fit_count(text, (WAKE_BUDGET_BYTES - 4) as nat) as int).push(ellipsis()).push('\n')
    }
}

/// One greedy step: keep the upgrade when the text still fits.
pub open spec fn render_step(input: WakeInputView, state: (Set<Candidate>, Seq<char>), c: Candidate) -> (
    Set<Candidate>,
    Seq<char>,
) {
    let up = state.0.insert(c);
    let attempt = compose_spec(input, up);
    if blen(attempt) <= WAKE_BUDGET_BYTES as nat {
        (up, attempt)
    } else {
        (up.remove(c), state.1)
    }
}

/// The upgrades kept and the text after trying `cs` in order, starting from
/// the skeleton.
pub open spec fn render_fold(input: WakeInputView, cs: Seq<Candidate>) -> (Set<Candidate>, Seq<char>)
    decreases cs.len(),
{
    if cs.len() == 0 {
        (Set::empty(), compose_spec(input, Set::empty()))
    } else {
        render_step(input, render_fold(input, cs.drop_last()), cs.last())
    }
}

/// The wake: empty for a workspace with nothing to orient to, otherwise the
/// skeleton upgraded greedily in priority order within the byte budget.
pub open spec fn render_spec(input: WakeInputView) -> Seq<char> {
    let n = normalized_spec(input);
    if is_quiet_spec(n) {
        Seq::empty()
    } else {
        enforce_budget_spec(render_fold(n, candidates_spec(n)).1)
    }
}

fn enforce_budget_chars(text: Vec<char>) -> (r: Vec<char>)
    ensures
        r@ == enforce_budget_spec(text@),
{
    if fits_within(&text, WAKE_BUDGET_BYTES) {
        return text;
    }
    let k = fit_count_exec(&text, WAKE_BUDGET_BYTES - 4);
    let mut out = take_chars(&text, k);
    out.push('\u{2026}');
    out.push('\n');
    out
}

/// The hard budget: a text beyond it is cut on a character boundary and
/// marked.
pub fn enforce_budget(text: String) -> (r: String)
    ensures
        r@ == enforce_budget_spec(text@),
{
    let chars = chars_of(text.as_str());
    string_from_chars(enforce_budget_chars(chars))
}

proof fn lemma_contains_push(s: Seq<Candidate>, a: Candidate, y: Candidate)
    ensures
        s.push(a).contains(y) <==> (s.contains(y) || y == a),
{
    if s.push(a).contains(y) {
        let k = choose|k: int| 0 <= k < s.push(a).len() && s.push(a)[k] == y;
        if k < s.len() {
            assert(s[k] == y);
        }
    }
    if s.contains(y) {
        let k = choose|k: int| 0 <= k < s.len() && s[k] == y;
        assert(s.push(a)[k] == y);
    }
    if y == a {
        assert(s.push(a)[s.len() as int] == y);
    }
}

proof fn lemma_cset_push(s: Seq<Candidate>, a: Candidate)
    ensures
        cset(s.push(a)) == cset(s).insert(a),
{
    assert forall|y: Candidate| cset(s.push(a)).contains(y) <==> cset(s).insert(a).contains(y) by {
        lemma_contains_push(s, a, y);
    }
    assert(cset(s.push(a)) =~= cset(s).insert(a));
}

fn without_candidate(v: &Vec<Candidate>, c: Candidate) -> (r: Vec<Candidate>)
    ensures
        cset(r@) == cset(v@).remove(c),
{
    let mut out: Vec<Candidate> = Vec::new();
    let mut i: usize = 0;
    while i < v.len()
        invariant
            i <= v@.len(),
            forall|x: Candidate| out@.contains(x) <==> (v@.take(i as int).contains(x) && x != c),
        decreases v@.len() - i,
    {
        let x = v[i];
        let ghost before = out@;
        if x != c {
            out.push(x);
        }
        proof {
            assert(v@.take(i as int + 1) =~= v@.take(i as int).push(x));
            assert forall|y: Candidate| out@.contains(y) <==> (v@.take(i as int + 1).contains(y) && y
                != c) by {
                lemma_contains_push(v@.take(i as int), x, y);
                lemma_contains_push(before, x, y);
            }
        }
        i = i + 1;
    }
    assert(v@.take(i as int) =~= v@);
    assert(cset(out@) =~= cset(v@).remove(c));
    out
}

/// Render the wake: empty for a workspace with nothing to orient to,
/// otherwise the skeleton upgraded greedily in priority order within the
/// byte budget.
pub fn render(input: &WakeInput) -> (r: String)
    ensures
        r@ == render_spec(input@),
{
    let input = normalized(input);
    if is_quiet(&input) {
        return String::new();
    }
    let cands = candidates(&input);
    let mut upgraded: Vec<Candidate> = Vec::new();
    let mut text = compose_chars(&input, &upgraded);
    proof {
        assert(cset(upgraded@) =~= Set::<Candidate>::empty());
        assert(cands@.take(0) =~= Seq::<Candidate>::empty());
    }
    let mut i: usize = 0;
    while i < cands.len()
        invariant
            i <= cands@.len(),
            (cset(upgraded@), text@) == render_fold(input@, cands@.take(i as int)),
        decreases cands@.len() - i,
    {
        let c = cands[i];
        let ghost prev = (cset(upgraded@), text@);
        let ghost before = upgraded@;
        if !contains_candidate(&upgraded, c) {
            upgraded.push(c);
            proof {
                lemma_cset_push(before, c);
            }
        } else {
            assert(cset(upgraded@) =~= prev.0.insert(c));
        }
        let attempt = compose_chars(&input, &upgraded);
        if fits_within(&attempt, WAKE_BUDGET_BYTES) {
            text = attempt;
        } else {
            upgraded = without_candidate(&upgraded, c);
        }
        proof {
            assert(cands@.take(i as int + 1).drop_last() =~= cands@.take(i as int));
        }
        i = i + 1;
    }
    assert(cands@.take(i as int) =~= cands@);
    string_from_chars(enforce_budget_chars(text))
}

} // verus!
