use vstd::prelude::*;

verus! {

/// A type whose `Clone` produces the very same value.
///
/// Event values must behave as plain values: a stored copy of a command is
/// the command.  Types implement this by writing a `Clone` whose `ensures`
/// says the result equals the original.
pub trait ExactClone: Clone + Sized {
    proof fn lemma_clone_exact(a: Self, b: Self)
        requires
            vstd::pervasive::cloned::<Self>(a, b),
        ensures
            b == a,
    ;
}

/// Durable, ordered record of events; the only persisted artifact of the
/// engine.  `log()` is the abstract contents: the sequence of events that
/// have been appended, in write order.
pub trait EventStorage: Sized {
    type Event;

    type Failure;

    /// The events persisted so far, in write order.
    spec fn log(&self) -> Seq<Self::Event>;

    /// Whether this backend can fail at all.  A backend that answers
    /// `true` promises that every replay and every append succeeds.
    spec fn infallible(&self) -> bool;

    /// Read back every persisted event, in write order.  Reading never
    /// changes the log.
    fn replay(&mut self) -> (r: Result<Vec<Self::Event>, Self::Failure>)
        ensures
            final(self).log() == old(self).log(),
            final(self).infallible() == old(self).infallible(),
            r is Ok ==> r->Ok_0@ == old(self).log(),
            old(self).infallible() ==> r is Ok,
    ;

    /// Durably write one event past the end of the log.  On failure the
    /// log is unchanged.
    fn append(&mut self, event: &Self::Event) -> (r: Result<(), Self::Failure>)
        ensures
            final(self).infallible() == old(self).infallible(),
            r is Ok ==> final(self).log() == old(self).log().push(*event),
            r is Err ==> final(self).log() == old(self).log(),
            old(self).infallible() ==> r is Ok,
    ;
}

/// Bidirectional mapping between one event and one line of text.
///
/// `format_spec` and `parse_spec` give the codec's meaning: which values
/// can be encoded, to exactly which line, and what any line decodes to.
/// The `round_trip` law ties them together: decoding an encoded value
/// gives the value back, and an encoded line never contains a line
/// terminator, so one event always occupies exactly one physical line.
pub trait TextConverter<T: DeepView>: Sized {
    type Failure;

    /// The line that `value` encodes to, or the failure rejecting it.
    spec fn format_spec(&self, value: T::V) -> Result<Seq<char>, Self::Failure>;

    /// The value that `text` decodes to, or the failure rejecting it.
    spec fn parse_spec(&self, text: Seq<char>) -> Result<T::V, Self::Failure>;

    /// The codec law: `parse` inverts `format`, and an encoded line holds
    /// no newline.
    proof fn round_trip(&self, value: T::V)
        requires
            self.format_spec(value) is Ok,
        ensures
            self.parse_spec(self.format_spec(value)->Ok_0) == Ok::<_, Self::Failure>(value),
            forall|i: int|
                0 <= i < self.format_spec(value)->Ok_0.len() ==> self.format_spec(value)->Ok_0[i]
                    != '\n',
    ;

    fn parse(&self, text: &str) -> (r: Result<T, Self::Failure>)
        ensures
            r is Ok <==> self.parse_spec(text@) is Ok,
            r is Ok ==> r->Ok_0.deep_view() == self.parse_spec(text@)->Ok_0,
            r is Err ==> r->Err_0 == self.parse_spec(text@)->Err_0,
    ;

    fn format(&self, value: &T) -> (r: Result<String, Self::Failure>)
        ensures
            r is Ok <==> self.format_spec(value.deep_view()) is Ok,
            r is Ok ==> r->Ok_0@ == self.format_spec(value.deep_view())->Ok_0,
            r is Err ==> r->Err_0 == self.format_spec(value.deep_view())->Err_0,
    ;
}

/// Event storage held entirely in memory: a verified reference backend,
/// and the natural storage for tests.  It never fails.
pub struct MemoryEventStorage<C, F> {
    pub events: Vec<C>,
    pub failure: core::marker::PhantomData<F>,
}

impl<C, F> MemoryEventStorage<C, F> {
    pub fn new() -> (r: Self)
        ensures
            r.events@ =~= Seq::<C>::empty(),
    {
        MemoryEventStorage { events: Vec::new(), failure: core::marker::PhantomData }
    }
}

impl<C: ExactClone, F> EventStorage for MemoryEventStorage<C, F> {
    type Event = C;

    type Failure = F;

    open spec fn log(&self) -> Seq<C> {
        self.events@
    }

    open spec fn infallible(&self) -> bool {
        true
    }

    fn replay(&mut self) -> (r: Result<Vec<C>, F>)
        ensures
            r is Ok,
    {
        let copy = self.events.clone();
        proof {
            assert forall|i: int| 0 <= i < copy@.len() implies copy@[i] == self.events@[i] by {
                C::lemma_clone_exact(self.events@[i], copy@[i]);
            }
            assert(copy@ =~= self.events@);
        }
        Ok(copy)
    }

    fn append(&mut self, event: &C) -> (r: Result<(), F>)
        ensures
            r is Ok,
    {
        let stored = event.clone();
        proof {
            C::lemma_clone_exact(*event, stored);
        }
        self.events.push(stored);
        Ok(())
    }
}


/// A line that replay skips: nothing on it but whitespace.
pub open spec fn blank_line(s: Seq<char>) -> bool {
    forall|i: int|
        0 <= i < s.len() ==> (#[trigger] s[i] == ' ' || s[i] == '\t' || s[i] == '\r' || s[i]
            == '\n')
}

/// The events carried by `lines`, in order, skipping blank lines and
/// stopping at the first line that does not decode.
pub open spec fn spec_decode_lines<T: DeepView, Conv: TextConverter<T>>(
    conv: Conv,
    lines: Seq<Seq<char>>,
) -> Result<Seq<T::V>, Conv::Failure>
    decreases lines.len(),
{
    if lines.len() == 0 {
        Ok(Seq::empty())
    } else {
        match spec_decode_lines::<T, Conv>(conv, lines.drop_last()) {
            Ok(vs) => {
                if blank_line(lines.last()) {
                    Ok(vs)
                } else {
                    match conv.parse_spec(lines.last()) {
                        Ok(v) => Ok(vs.push(v)),
                        Err(e) => Err(e),
                    }
                }
            },
            Err(e) => Err(e),
        }
    }
}

/// Where encoded lines go to become durable: a file, a socket, anything
/// that takes one line at a time.  The sink does input and output, so the
/// library promises nothing about it; the storage built on top keeps its
/// own account of what was handed over.
pub trait LineSink: Sized {
    type Failure;

    fn append_line(&mut self, line: &str) -> Result<(), Self::Failure>;
}

/// Event storage over a text codec and a line sink: the verified half of
/// a line-oriented storage backend.  It decodes the lines it is given at
/// construction, and thereafter encodes each appended event and hands the
/// line to the sink before recording the event.  `log()` is the record of
/// what was decoded and appended, in order.
pub struct TextEventStorage<C, Conv, S> where
    C: DeepView,
    Conv: TextConverter<C>,
    S: LineSink<Failure = Conv::Failure>,
 {
    pub events: Vec<C>,
    pub converter: Conv,
    pub sink: S,
}

impl<C, Conv, S> TextEventStorage<C, Conv, S> where
    C: DeepView,
    Conv: TextConverter<C>,
    S: LineSink<Failure = Conv::Failure>,
 {
    /// Decode `lines` into the storage's starting log.  Fails on the
    /// first line that holds neither whitespace nor an encoded event.
    pub fn new(lines: &Vec<String>, converter: Conv, sink: S) -> (r: Result<
        Self,
        Conv::Failure,
    >)
        ensures
            match r {
                Ok(st) => {
                    &&& spec_decode_lines::<C, Conv>(converter, lines.deep_view()) matches Ok(vs)
                    &&& st.events.deep_view() == spec_decode_lines::<C, Conv>(
                        converter,
                        lines.deep_view(),
                    )->Ok_0
                },
                Err(e) => spec_decode_lines::<C, Conv>(converter, lines.deep_view()) matches Err(
                    e2,
                ) && e == e2,
            },
    {
        let ghost views = lines.deep_view();
        let mut events: Vec<C> = Vec::new();
        let mut i: usize = 0;
        while i < lines.len()
            invariant
                0 <= i <= lines.len(),
                views == lines.deep_view(),
                views.len() == lines.len(),
                spec_decode_lines::<C, Conv>(converter, views.take(i as int)) matches Ok(vs)
                    && events.deep_view() == vs,
            decreases lines.len() - i,
        {
            proof {
                assert(views.take(i + 1).drop_last() =~= views.take(i as int));
                assert(views.take(i + 1).last() == views[i as int]);
                assert(lines[i as int]@ == views[i as int]);
            }
            let line = &lines[i];
            if !is_blank(line.as_str()) {
                match converter.parse(line.as_str()) {
                    Ok(event) => {
                        events.push(event);
                        proof {
                            assert(events.deep_view() =~= spec_decode_lines::<C, Conv>(
                                converter,
                                views.take(i + 1),
                            )->Ok_0);
                        }
                    },
                    Err(e) => {
                        proof {
                            lemma_decode_lines_err::<C, Conv>(converter, views, i as int);
                        }
                        return Err(e);
                    },
                }
            }
            i = i + 1;
        }
        proof {
            assert(views.take(lines.len() as int) =~= views);
        }
        Ok(TextEventStorage { events, converter, sink })
    }
}

/// A decode failure at a prefix settles the whole sequence.
proof fn lemma_decode_lines_err<T: DeepView, Conv: TextConverter<T>>(
    conv: Conv,
    lines: Seq<Seq<char>>,
    i: int,
)
    requires
        0 <= i < lines.len(),
        spec_decode_lines::<T, Conv>(conv, lines.take(i)) is Ok,
        !blank_line(lines[i]),
        conv.parse_spec(lines[i]) is Err,
    ensures
        spec_decode_lines::<T, Conv>(conv, lines) matches Err(e) && e == conv.parse_spec(
            lines[i],
        )->Err_0,
    decreases lines.len(),
{
    if lines.len() == i + 1 {
        assert(lines.take(i) =~= lines.drop_last());
    } else {
        assert(lines.drop_last().take(i) =~= lines.take(i));
        assert(lines.drop_last()[i] == lines[i]);
        lemma_decode_lines_err::<T, Conv>(conv, lines.drop_last(), i);
    }
}

/// Every character of the line is whitespace.
fn is_blank(s: &str) -> (r: bool)
    ensures
        r == blank_line(s@),
{
    let n = s.unicode_len();
    let mut i: usize = 0;
    while i < n
        invariant
            0 <= i <= n,
            n == s@.len(),
            forall|j: int|
                0 <= j < i ==> (#[trigger] s@[j] == ' ' || s@[j] == '\t' || s@[j] == '\r'
                    || s@[j] == '\n'),
        decreases n - i,
    {
        let c = s.get_char(i);
        if !(c == ' ' || c == '\t' || c == '\r' || c == '\n') {
            return false;
        }
        i = i + 1;
    }
    true
}

impl<C, Conv, S> EventStorage for TextEventStorage<C, Conv, S> where
    C: DeepView + ExactClone,
    Conv: TextConverter<C>,
    S: LineSink<Failure = Conv::Failure>,
 {
    type Event = C;

    type Failure = Conv::Failure;

    open spec fn log(&self) -> Seq<C> {
        self.events@
    }

    // The sink is free to fail, and so is the codec on an unencodable
    // event, so appends cannot be promised to succeed.
    open spec fn infallible(&self) -> bool {
        false
    }

    fn replay(&mut self) -> (r: Result<Vec<C>, Conv::Failure>)
        ensures
            r is Ok,
    {
        let copy = self.events.clone();
        proof {
            assert forall|i: int| 0 <= i < copy@.len() implies copy@[i] == self.events@[i] by {
                C::lemma_clone_exact(self.events@[i], copy@[i]);
            }
            assert(copy@ =~= self.events@);
        }
        Ok(copy)
    }

    fn append(&mut self, event: &C) -> (r: Result<(), Conv::Failure>)
        ensures
            old(self).converter.format_spec(event.deep_view()) is Err ==> r is Err && r->Err_0
                == old(self).converter.format_spec(event.deep_view())->Err_0,
    {
        let line = match self.converter.format(event) {
            Ok(line) => line,
            Err(e) => {
                return Err(e);
            },
        };
        match self.sink.append_line(line.as_str()) {
            Ok(()) => {
                let stored = event.clone();
                proof {
                    C::lemma_clone_exact(*event, stored);
                }
                self.events.push(stored);
                Ok(())
            },
            Err(e) => Err(e),
        }
    }
}

} // verus!
