//! Both ends of a session on one machine: a tester whose far end is an ECU,
//! the two on a fresh pair of directed buses per round.

use crate::bus::Frame;
use crate::deliver::DeliverStep;
use crate::error::IsoTpError;
use crate::frame::FlowStatus;
use crate::numeral::{
    digit_value, numeral, numeral_is_injective, numerals_read_back, read_as, write_numeral,
};
use crate::transport::{IsoTpTransport, IsoTpTransportView, ECU_ID, TESTER_ID};
use vstd::prelude::*;
use vstd::string::StringExecFns;

verus! {

/// The two directed buses of one loopback session: the tester transmits on
/// `to_ecu` and reads `to_tester`, the ECU the other way round.
#[derive(Clone)]
pub struct Session<B> {
    /// Carries what the tester transmits.
    pub to_ecu: B,
    /// Carries what the ECU transmits.
    pub to_tester: B,
}

impl<B> Session<B> {
    /// A session on two buses that carry nothing yet.
    #[must_use]
    pub fn fresh(to_ecu: B, to_tester: B) -> (session: Session<B>)
        ensures
            session == (Session { to_ecu, to_tester }),
    {
        Session { to_ecu, to_tester }
    }
}

struct Entry<B> {
    address: String,
    session: Session<B>,
}

/// The sessions a loopback has stood up and not yet taken, by address. There
/// is a fresh pair of buses per round, so rounds driven at once never read
/// each other's frames.
pub struct Standing<B> {
    entries: Vec<Entry<B>>,
}

spec fn entries_map<B>(entries: Seq<Entry<B>>) -> Map<Seq<char>, Session<B>>
    decreases entries.len(),
{
    if entries.len() == 0 {
        Map::empty()
    } else {
        entries_map(entries.drop_last()).insert(entries.last().address@, entries.last().session)
    }
}

impl<B> View for Standing<B> {
    type V = Map<Seq<char>, Session<B>>;

    closed spec fn view(&self) -> Map<Seq<char>, Session<B>> {
        entries_map(self.entries@)
    }
}

proof fn entry_is_in_map<B>(entries: Seq<Entry<B>>, i: int)
    requires
        0 <= i < entries.len(),
    ensures
        entries_map(entries).dom().contains(entries[i].address@),
    decreases entries.len(),
{
    if i < entries.len() - 1 {
        entry_is_in_map(entries.drop_last(), i);
    }
}

proof fn last_entry_counts<B>(entries: Seq<Entry<B>>, i: int)
    requires
        0 <= i < entries.len(),
        forall|j: int| i < j < entries.len() ==> entries[j].address@ != entries[i].address@,
    ensures
        entries_map(entries).dom().contains(entries[i].address@),
        entries_map(entries)[entries[i].address@] == entries[i].session,
    decreases entries.len(),
{
    if i < entries.len() - 1 {
        last_entry_counts(entries.drop_last(), i);
        assert(entries.last() == entries[entries.len() - 1]);
    }
}

proof fn no_entry_no_key<B>(entries: Seq<Entry<B>>, address: Seq<char>)
    requires
        forall|j: int| 0 <= j < entries.len() ==> entries[j].address@ != address,
    ensures
        !entries_map(entries).dom().contains(address),
    decreases entries.len(),
{
    if entries.len() > 0 {
        assert(entries.last() == entries[entries.len() - 1]);
        no_entry_no_key(entries.drop_last(), address);
    }
}

proof fn dropping_an_entry<B>(entries: Seq<Entry<B>>, i: int)
    requires
        0 <= i < entries.len(),
    ensures
        entries_map(entries.remove(i)).remove(entries[i].address@) =~= entries_map(entries).remove(
            entries[i].address@,
        ),
    decreases entries.len(),
{
    if i == entries.len() - 1 {
        assert(entries.remove(i) =~= entries.drop_last());
    } else {
        let front: Seq<Entry<B>> = entries.drop_last();
        let dropped: Seq<char> = entries[i].address@;
        let key: Seq<char> = entries.last().address@;
        let session: Session<B> = entries.last().session;
        dropping_an_entry(front, i);
        assert(entries.remove(i).drop_last() =~= front.remove(i));
        assert(entries.remove(i).last() == entries.last());
        let with: Map<Seq<char>, Session<B>> = entries_map(front);
        let without: Map<Seq<char>, Session<B>> = entries_map(front.remove(i));
        if key == dropped {
            assert(with.insert(key, session).remove(dropped) =~= with.remove(dropped));
            assert(without.insert(key, session).remove(dropped) =~= without.remove(dropped));
        } else {
            assert(with.insert(key, session).remove(dropped) =~= with.remove(dropped).insert(
                key,
                session,
            ));
            assert(without.insert(key, session).remove(dropped) =~= without.remove(dropped).insert(
                key,
                session,
            ));
        }
    }
}

/// The address of the loopback session numbered `number`.
pub open spec fn loopback_address(number: u64) -> Seq<char> {
    "isotp://loopback/"@ + numeral(number as nat, 10)
}

/// Sessions with different numbers have different addresses: each address
/// names one session.
pub proof fn addresses_name_one_session(number: u64, other: u64)
    requires
        loopback_address(number) == loopback_address(other),
    ensures
        number == other,
{
    let prefix: Seq<char> = "isotp://loopback/"@;
    assert(loopback_address(number).skip(prefix.len() as int) =~= numeral(number as nat, 10));
    assert(loopback_address(other).skip(prefix.len() as int) =~= numeral(other as nat, 10));
    numeral_is_injective(number as nat, other as nat, 10);
}

/// How many numbers there are before they come round again.
pub const NUMBERS: u128 = 0x1_0000_0000_0000_0000;

/// The count after `draws` numbers were drawn from `count` on.
pub open spec fn drawn(count: u64, draws: nat) -> u64 {
    ((count + draws) % NUMBERS as int) as u64
}

/// Numbers the sessions, so each address names one.
#[derive(Debug)]
pub struct SessionNumbers {
    next: u64,
}

impl View for SessionNumbers {
    type V = u64;

    closed spec fn view(&self) -> u64 {
        self.next
    }
}

impl SessionNumbers {
    /// The numbers from one on.
    #[must_use]
    pub fn new() -> (numbers: SessionNumbers)
        ensures
            numbers@ == 1,
    {
        SessionNumbers { next: 1 }
    }

    /// The next number. After the largest comes zero.
    pub fn draw(&mut self) -> (number: u64)
        ensures
            number == old(self)@,
            final(self)@ == drawn(old(self)@, 1),
    {
        let number: u64 = self.next;
        self.next = if number == u64::MAX {
            0
        } else {
            number + 1
        };
        number
    }
}

/// Draws add up: drawing on from a count is drawing more from where it began.
pub proof fn draws_add_up(count: u64, draws: nat, more: nat)
    ensures
        drawn(drawn(count, draws), more) == drawn(count, draws + more),
        drawn(count, 0) == count,
{
}

/// Any two draws of one counter give two addresses: the one at `count` and the
/// one that comes `later` draws after it, unless so many lie between them that
/// the numbers have come round. So any two far ends that draw from one counter
/// have each an address of its own.
pub proof fn two_draws_give_two_addresses(count: u64, later: nat)
    requires
        0 < later < NUMBERS,
    ensures
        loopback_address(count) != loopback_address(drawn(count, later)),
{
    if loopback_address(count) == loopback_address(drawn(count, later)) {
        addresses_name_one_session(count, drawn(count, later));
    }
}

/// Whether every session that stands is at an address out of the `draws` numbers
/// drawn from `first` on.
pub open spec fn stand_by_draw<B>(
    standing: Map<Seq<char>, Session<B>>,
    first: u64,
    draws: nat,
) -> bool {
    forall|address: Seq<char>| #[trigger]
        standing.dom().contains(address) ==> is_drawn(address, first, draws)
}

/// Whether `address` is the address of one of the `draws` numbers drawn from
/// `first` on.
pub open spec fn is_drawn(address: Seq<char>, first: u64, draws: nat) -> bool {
    exists|i: nat| i < draws && address == #[trigger] loopback_address(drawn(first, i))
}

/// A far end never displaces a session that stands. Where every session stands
/// at an address out of the numbers drawn so far, the address that the next draw
/// gives is free, until the numbers have come round; and so it stays: it holds
/// where none stands and nothing is drawn, after the next session is stood up,
/// after any session is forgotten, and after a number is drawn for nothing.
pub proof fn a_far_end_displaces_no_session<B>(
    standing: Map<Seq<char>, Session<B>>,
    first: u64,
    draws: nat,
    session: Session<B>,
    forgotten: Seq<char>,
)
    requires
        stand_by_draw(standing, first, draws),
    ensures
        ({
            let count: u64 = drawn(first, draws);
            let address: Seq<char> = loopback_address(count);
            &&& draws < NUMBERS ==> !standing.dom().contains(address)
            &&& stand_by_draw(Map::<Seq<char>, Session<B>>::empty(), first, 0)
            &&& stand_by_draw(standing.insert(address, session), first, draws + 1)
            &&& stand_by_draw(standing.remove(forgotten), first, draws)
            &&& stand_by_draw(standing, first, draws + 1)
            &&& drawn(count, 1) == drawn(first, draws + 1)
        }),
{
    let count: u64 = drawn(first, draws);
    let address: Seq<char> = loopback_address(count);
    draws_add_up(first, draws, 1);
    if draws < NUMBERS && standing.dom().contains(address) {
        assert(is_drawn(address, first, draws));
        let i: nat = choose|i: nat|
            i < draws && address == #[trigger] loopback_address(drawn(first, i));
        draws_add_up(first, i, (draws - i) as nat);
        two_draws_give_two_addresses(drawn(first, i), (draws - i) as nat);
    }
    assert forall|known: Seq<char>| is_drawn(known, first, draws) implies #[trigger] is_drawn(
        known,
        first,
        draws + 1,
    ) by {
        let i: nat = choose|i: nat|
            i < draws && known == #[trigger] loopback_address(drawn(first, i));
        assert(i < draws + 1 && known == loopback_address(drawn(first, i)));
    }
    assert(is_drawn(address, first, draws + 1));
}

/// Standing a session up and taking it again leaves the sessions that stood
/// before, and meanwhile every session with another number is untouched.
pub proof fn a_taken_session_is_forgotten<B>(
    standing: Map<Seq<char>, Session<B>>,
    number: u64,
    session: Session<B>,
    other: u64,
)
    requires
        !standing.dom().contains(loopback_address(number)),
    ensures
        standing.insert(loopback_address(number), session).remove(loopback_address(number))
            == standing,
        other != number && standing.dom().contains(loopback_address(other)) ==> {
            let meanwhile = standing.insert(loopback_address(number), session);
            &&& meanwhile.dom().contains(loopback_address(other))
            &&& meanwhile[loopback_address(other)] == standing[loopback_address(other)]
        },
{
    assert(standing.insert(loopback_address(number), session).remove(loopback_address(number))
        =~= standing);
    if loopback_address(other) == loopback_address(number) {
        addresses_name_one_session(other, number);
    }
}

impl<B> Standing<B> {
    /// No session.
    #[must_use]
    pub fn new() -> (standing: Standing<B>)
        ensures
            standing@ == Map::<Seq<char>, Session<B>>::empty(),
    {
        Standing { entries: Vec::new() }
    }

    /// Whether no session stands.
    #[must_use]
    pub fn is_empty(&self) -> (empty: bool)
        ensures
            empty == (self@ == Map::<Seq<char>, Session<B>>::empty()),
    {
        proof {
            if self.entries@.len() > 0 {
                entry_is_in_map(self.entries@, 0);
            }
        }
        self.entries.len() == 0
    }

    /// Forget the session at `address`, if one stands there.
    pub fn remove(&mut self, address: &str)
        ensures
            final(self)@ == old(self)@.remove(address@),
    {
        let wanted: String = address.to_owned();
        let mut i: usize = 0;
        while i < self.entries.len()
            invariant
                wanted@ == address@,
                i <= self.entries@.len(),
                forall|j: int| 0 <= j < i ==> self.entries@[j].address@ != address@,
                self@.remove(address@) =~= old(self)@.remove(address@),
            decreases self.entries@.len() - i,
        {
            if self.entries[i].address == wanted {
                proof {
                    dropping_an_entry(self.entries@, i as int);
                }
                self.entries.remove(i);
            } else {
                i = i + 1;
            }
        }
        proof {
            no_entry_no_key(self.entries@, address@);
            assert(self@.remove(address@) =~= self@);
        }
    }

    /// Stand `session` up at `address`, in place of one that stood there.
    pub fn insert(&mut self, address: String, session: Session<B>)
        ensures
            final(self)@ == old(self)@.insert(address@, session),
    {
        self.remove(address.as_str());
        let ghost before = self.entries@;
        self.entries.push(Entry { address, session });
        proof {
            assert(self.entries@.drop_last() =~= before);
            assert(old(self)@.remove(address@).insert(address@, session) =~= old(self)@.insert(
                address@,
                session,
            ));
        }
    }

    /// The session at `address`.
    ///
    /// # Errors
    /// No session stands there.
    pub fn session(&self, address: &str) -> (session: Result<&Session<B>, IsoTpError>)
        ensures
            session is Ok <==> self@.dom().contains(address@),
            session matches Ok(found) ==> *found == self@[address@],
            session matches Err(error) ==> (error matches IsoTpError::UnknownSession {
                address: unknown,
            } && unknown@ == address@),
    {
        let wanted: String = address.to_owned();
        let mut i: usize = self.entries.len();
        while i > 0
            invariant
                wanted@ == address@,
                i <= self.entries@.len(),
                forall|j: int| i <= j < self.entries@.len() ==> self.entries@[j].address@
                    != address@,
            decreases i,
        {
            i = i - 1;
            if self.entries[i].address == wanted {
                proof {
                    last_entry_counts(self.entries@, i as int);
                }
                return Ok(&self.entries[i].session);
            }
        }
        proof {
            no_entry_no_key(self.entries@, address@);
        }
        Err(IsoTpError::UnknownSession { address: wanted })
    }
}

/// An ECU waiting to collect its one message. It owns the session: the
/// address is forgotten once the message is taken.
pub struct Ecu<B> {
    end: IsoTpTransport<B>,
    address: String,
}

/// The contents of an [`Ecu`].
pub struct EcuView<B> {
    /// The end that collects.
    pub end: IsoTpTransportView<B>,
    /// The address of its session.
    pub address: Seq<char>,
}

impl<B> View for Ecu<B> {
    type V = EcuView<B>;

    closed spec fn view(&self) -> EcuView<B> {
        EcuView { end: self.end@, address: self.address@ }
    }
}

impl<B> Ecu<B> {
    /// The address of the session.
    #[must_use]
    pub fn address(&self) -> (address: &str)
        ensures
            address@ == self@.address,
    {
        self.address.as_str()
    }

    /// The end that collects the message.
    #[must_use]
    pub fn end(&self) -> (end: &IsoTpTransport<B>)
        ensures
            end@ == self@.end,
    {
        &self.end
    }

    /// Give up the session once its one message is `taken`, whatever came of
    /// the taking.
    pub fn take_one<T>(self, standing: &mut Standing<B>, taken: T) -> (outcome: T)
        ensures
            outcome == taken,
            final(standing)@ == old(standing)@.remove(self@.address),
    {
        standing.remove(self.address.as_str());
        taken
    }
}

impl<B: Clone> IsoTpTransport<B> {
    /// Both ends on this machine: a tester whose far end is an ECU, with
    /// `timeout` nanoseconds on both. The bus this end itself holds carries
    /// nothing; every round stands up its own.
    #[must_use]
    pub fn loopback(idle: B, timeout: u128) -> (end: IsoTpTransport<B>)
        ensures
            cloned(idle, end@.outbound),
            end@ == (IsoTpTransportView {
                timeout: timeout as nat,
                ..IsoTpTransportView::fresh(end@.outbound, idle, TESTER_ID)
            }),
    {
        let twin: B = idle.clone();
        IsoTpTransport::new(twin, idle, TESTER_ID).timing_out_after(timeout)
    }

    /// The tester's end of the session at `address`.
    ///
    /// # Errors
    /// No session stands there.
    pub fn tester(&self, standing: &Standing<B>, address: &str) -> (end: Result<
        IsoTpTransport<B>,
        IsoTpError,
    >)
        ensures
            end is Ok <==> standing@.dom().contains(address@),
            end matches Ok(tester) ==> is_tester(self@, standing@[address@], tester@),
            end matches Err(error) ==> (error matches IsoTpError::UnknownSession {
                address: unknown,
            } && unknown@ == address@),
    {
        match standing.session(address) {
            Ok(session) => Ok(
                IsoTpTransport::new(session.to_ecu.clone(), session.to_tester.clone(), TESTER_ID)
                    .paced(self.pacing()).timing_out_after(self.timeout()),
            ),
            Err(error) => Err(error),
        }
    }

    /// Stand `session` up under the next of `numbers` and give its ECU, which
    /// has the pacing and the timeout of this end.
    pub fn far_end(
        &self,
        standing: &mut Standing<B>,
        session: Session<B>,
        numbers: &mut SessionNumbers,
    ) -> (ecu: Ecu<B>)
        ensures
            ecu@.address == loopback_address(old(numbers)@),
            final(numbers)@ == drawn(old(numbers)@, 1),
            is_ecu(self@, session, ecu@.end),
            final(standing)@ == old(standing)@.insert(loopback_address(old(numbers)@), session),
    {
        let end: IsoTpTransport<B> = IsoTpTransport::new(
            session.to_tester.clone(),
            session.to_ecu.clone(),
            ECU_ID,
        ).paced(self.pacing()).timing_out_after(self.timeout());
        let mut address: String = "isotp://loopback/".to_owned();
        address.append(write_numeral(numbers.draw(), 10).as_str());
        standing.insert(address.clone(), session);
        Ecu { end, address }
    }

    /// Open the delivery of `payload` to the ECU of the session at `address`:
    /// the tester's end of it, and the first step.
    ///
    /// # Errors
    /// No session stands there, or a payload over the ceiling.
    pub fn send_to(&self, standing: &Standing<B>, address: &str, payload: &[u8]) -> (sent: Result<
        (IsoTpTransport<B>, DeliverStep),
        IsoTpError,
    >)
        ensures
            sent is Ok <==> standing@.dom().contains(address@) && payload@.len()
                <= self@.ceiling(),
            sent matches Ok((tester, step)) ==> is_tester(self@, standing@[address@], tester@)
                && step@ == tester@.outgoing(payload@).open(),
            sent matches Err(error) ==> if standing@.dom().contains(address@) {
                error matches IsoTpError::OverCeiling { length, ceiling } && length
                    == payload@.len() && ceiling == self@.ceiling()
            } else {
                error matches IsoTpError::UnknownSession { address: unknown } && unknown@
                    == address@
            },
    {
        match self.tester(standing, address) {
            Ok(tester) => match tester.deliver(payload) {
                Ok(step) => Ok((tester, step)),
                Err(error) => Err(error),
            },
            Err(error) => Err(error),
        }
    }

    /// What releases an ECU whose tester was refused: the tester's end and a
    /// flow-control frame to put on its outbound bus. A flow-control frame is
    /// what no session opens with, so the ECU reads it and is judged now
    /// rather than at its deadline. Nothing, where no session stands at
    /// `address`.
    #[must_use]
    pub fn unblock(&self, standing: &Standing<B>, address: &str) -> (release: Option<
        (IsoTpTransport<B>, Frame),
    >)
        ensures
            release is Some <==> standing@.dom().contains(address@),
            release matches Some((tester, frame)) ==> is_tester(
                self@,
                standing@[address@],
                tester@,
            ) && frame@ == tester@.flow(FlowStatus::Continue),
    {
        match self.tester(standing, address) {
            Ok(tester) => {
                let frame: Frame = tester.transmit_flow(FlowStatus::Continue);
                Some((tester, frame))
            },
            Err(_) => None,
        }
    }
}

/// Whether `tester` is the tester's end of `session` as `end` paces it: it
/// transmits on the bus to the ECU and reads the bus to the tester.
pub open spec fn is_tester<B: Clone>(
    end: IsoTpTransportView<B>,
    session: Session<B>,
    tester: IsoTpTransportView<B>,
) -> bool {
    &&& cloned(session.to_ecu, tester.outbound)
    &&& cloned(session.to_tester, tester.inbound)
    &&& tester.id == TESTER_ID
    &&& tester.pacing == end.pacing
    &&& tester.timeout == end.timeout
}

/// The two ends of a session are each other's peer, where a bus handle and its
/// clone are the same bus: what one transmits the other reads, and both have the
/// pacing and the timeout of the end that stood the session up.
pub proof fn the_peer_has_the_buses_swapped<B: Clone>(
    end: IsoTpTransportView<B>,
    session: Session<B>,
    tester: IsoTpTransportView<B>,
    ecu: IsoTpTransportView<B>,
)
    requires
        is_tester(end, session, tester),
        is_ecu(end, session, ecu),
        forall|bus: B, clone: B| #[trigger] cloned(bus, clone) ==> bus == clone,
    ensures
        tester.outbound == ecu.inbound,
        tester.inbound == ecu.outbound,
        tester.pacing == ecu.pacing,
        tester.timeout == ecu.timeout,
{
}

/// Whether `ecu` is the ECU's end of `session` as `end` paces it: the same
/// with the two buses swapped.
pub open spec fn is_ecu<B: Clone>(
    end: IsoTpTransportView<B>,
    session: Session<B>,
    ecu: IsoTpTransportView<B>,
) -> bool {
    &&& cloned(session.to_tester, ecu.outbound)
    &&& cloned(session.to_ecu, ecu.inbound)
    &&& ecu.id == ECU_ID
    &&& ecu.pacing == end.pacing
    &&& ecu.timeout == end.timeout
}

/// The address of a session: the scheme and the name of the loopback, and then
/// the number of the session in base ten, which reads back as that number.
pub proof fn addresses_tell_the_number(number: u64)
    ensures
        ({
            let address: Seq<char> = loopback_address(number);
            let name: Seq<char> = address.skip(17);
            &&& address.len() > 17
            &&& address.take(17) == "isotp://loopback/"@
            &&& read_as(name, 10) == number
            &&& forall|i: int| 0 <= i < name.len() ==> 0 <= digit_value(#[trigger] name[i]) < 10
            &&& name[0] == '0' ==> number == 0
            &&& number == 0 ==> name == seq!['0']
        }),
{
    let address: Seq<char> = loopback_address(number);
    reveal_strlit("isotp://loopback/");
    numerals_read_back(number as nat, 10);
    assert(address.take(17) =~= "isotp://loopback/"@);
    assert(address.skip(17) =~= numeral(number as nat, 10));
}

/// The count goes up by one with each draw, and from the largest number that 64
/// bits hold to zero; and it is back where it began after as many draws as there
/// are such numbers, and not before.
pub proof fn draws_count_up(count: u64, draws: nat)
    ensures
        count < 0xffff_ffff_ffff_ffff ==> drawn(count, 1) == count + 1,
        count == 0xffff_ffff_ffff_ffff ==> drawn(count, 1) == 0,
        0 < draws < 0x1_0000_0000_0000_0000 ==> drawn(count, draws) != count,
        draws == 0x1_0000_0000_0000_0000 ==> drawn(count, draws) == count,
{
}

/// Who is on which bus: the tester transmits under 0x7e0 on the bus to the ECU
/// and reads the bus to the tester, the ECU transmits under 0x7e8 on the bus to
/// the tester and reads the bus to the ECU, and both have the pacing and the
/// timeout of the end that stood the session up.
pub proof fn who_is_on_which_bus<B: Clone>(
    end: IsoTpTransportView<B>,
    session: Session<B>,
    tester: IsoTpTransportView<B>,
    ecu: IsoTpTransportView<B>,
)
    requires
        is_tester(end, session, tester),
        is_ecu(end, session, ecu),
    ensures
        cloned(session.to_ecu, tester.outbound),
        cloned(session.to_tester, tester.inbound),
        cloned(session.to_tester, ecu.outbound),
        cloned(session.to_ecu, ecu.inbound),
        tester.id == 0x7e0,
        ecu.id == 0x7e8,
        tester.pacing == end.pacing,
        ecu.pacing == end.pacing,
        tester.timeout == end.timeout,
        ecu.timeout == end.timeout,
{
}

} // verus!
