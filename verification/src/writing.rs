use vstd::prelude::*;

use crate::numbers::spec_dec_u8;
use crate::numbers::spec_join_codes;
use crate::numbers::spec_sgr_seq;
use crate::numbers::u8_string;

verus! {

// The runtime code-sink interface: a buffer of pending SGR codes and the
// writer traits through which the buffer is flushed as `ESC [ codes m`.

/// An interface for an `SGRWriter` to work with; the sink that the final
/// text goes to. Implementations decide what writing means and when it
/// fails.
pub trait CapableWriter: Sized {
    /// The type of error returned when writing fails.
    type Error;

    /// Whether this implementation's `sink` model is honest: true exactly
    /// where a successful `write` grows `sink` by the text it was given.
    /// The default model tracks nothing and claims nothing.
    open spec fn obeys_sink_model() -> bool {
        false
    }

    /// Everything the sink has accepted so far, under the model; meaningful
    /// only where `obeys_sink_model()` holds. An implementation whose
    /// callers are verified overrides both.
    open spec fn sink(&self) -> Seq<char> {
        Seq::empty()
    }

    /// Writes a `str` to the sink: on success an honest sink has grown by
    /// exactly that text.
    fn write(&mut self, s: &str) -> (r: Result<(), Self::Error>)
        ensures
            Self::obeys_sink_model() && r is Ok ==> final(self).sink() == old(self).sink() + s@,
    ;
}

/// A writer built on top of a `CapableWriter` that works with SGR codes.
pub trait SGRWriter: CapableWriter {
    /// Writes a `str` to the sink; a shortcut for `write`.
    fn write_inner(&mut self, s: &str) -> (r: Result<(), Self::Error>)
        ensures
            Self::obeys_sink_model() && r is Ok ==> final(self).sink() == old(self).sink() + s@,
    {
        self.write(s)
    }

    /// Returns a new, empty `SGRBuilder`.
    fn builder(&self) -> (r: SGRBuilder)
        ensures
            r.0@.len() == 0,
    {
        SGRBuilder(Vec::new())
    }

    /// Writes the codes of `sgr` to the sink as one complete SGR sequence.
    fn sgr<E: EasyWrite>(&mut self, sgr: &E) -> (r: Result<(), Self::Error>)
        ensures
            Self::obeys_sink_model() && r is Ok ==> final(self).sink() == old(self).sink()
                + spec_sgr_seq(sgr.codes()),
            sgr.codes().len() == 0 ==> r is Ok && final(self).sink() == old(self).sink(),
    {
        let mut builder = SGRBuilder(Vec::new());
        sgr.sgr(&mut builder);
        proof {
            assert(Seq::<u8>::empty() + sgr.codes() =~= sgr.codes());
        }
        builder.write_to(self)
    }
}

/// A standard SGR writer over any capable sink.
#[derive(Debug, Clone)]
pub struct StandardWriter<W: CapableWriter> {
    /// A writer capable of writing a `str`.
    pub writer: W,
}

impl<W: CapableWriter> StandardWriter<W> {
    /// Wraps a sink.
    pub fn new(writer: W) -> (r: Self)
        ensures
            r.writer == writer,
    {
        StandardWriter { writer }
    }
}

impl<W: CapableWriter> CapableWriter for StandardWriter<W> {
    type Error = W::Error;

    open spec fn obeys_sink_model() -> bool {
        W::obeys_sink_model()
    }

    open spec fn sink(&self) -> Seq<char> {
        self.writer.sink()
    }

    fn write(&mut self, s: &str) -> (r: Result<(), Self::Error>) {
        self.writer.write(s)
    }
}

impl<W: CapableWriter> SGRWriter for StandardWriter<W> {

}

/// Builds an SGR sequence from buffered codes.
#[derive(Debug)]
pub struct SGRBuilder(pub Vec<u8>);

impl Default for SGRBuilder {
    /// An empty builder.
    fn default() -> (r: Self)
        ensures
            r.0@.len() == 0,
    {
        SGRBuilder(Vec::new())
    }
}

impl SGRBuilder {
    /// Writes a code to the internal buffer.
    pub fn write_code(&mut self, code: u8)
        ensures
            final(self).0@ == old(self).0@.push(code),
    {
        self.0.push(code);
    }

    /// Writes codes to the internal buffer.
    pub fn write_codes(&mut self, codes: &[u8])
        ensures
            final(self).0@ == old(self).0@ + codes@,
    {
        let ghost b0 = self.0@;
        let mut k: usize = 0;
        while k < codes.len()
            invariant
                k <= codes@.len(),
                self.0@ == b0 + codes@.subrange(0, k as int),
            decreases codes@.len() - k,
        {
            self.0.push(codes[k]);
            proof {
                assert(self.0@ =~= b0 + codes@.subrange(0, k + 1));
            }
            k += 1;
        }
        proof {
            assert(codes@.subrange(0, codes@.len() as int) =~= codes@);
        }
    }

    /// Writes a code to the internal buffer; usable in a chain of calls.
    pub fn chain_code(&mut self, code: u8) -> (r: &mut Self)
        ensures
            r.0@ == old(self).0@.push(code),
            *final(self) == *final(r),
    {
        self.0.push(code);
        self
    }

    /// Writes codes to the internal buffer; usable in a chain of calls.
    pub fn chain_codes(&mut self, codes: &[u8]) -> (r: &mut Self)
        ensures
            r.0@ == old(self).0@ + codes@,
            *final(self) == *final(r),
    {
        self.write_codes(codes);
        self
    }

    /// Writes the buffered codes to the writer as one complete SGR sequence
    /// and clears the buffer. An empty buffer makes no write at all — never
    /// an inert `ESC [ m` — and cannot fail; on an error the buffer is kept,
    /// unless only the closing `m` failed to be written, after which it is
    /// already cleared.
    pub fn write_to<W: CapableWriter>(&mut self, writer: &mut W) -> (r: Result<(), W::Error>)
        ensures
            r is Ok ==> final(self).0@.len() == 0,
            W::obeys_sink_model() && r is Ok ==> final(writer).sink() == old(writer).sink()
                + spec_sgr_seq(old(self).0@),
            old(self).0@.len() == 0 ==> r is Ok && *final(writer) == *old(writer)
                && final(self).0@ == old(self).0@,
            r is Err ==> final(self).0@ == old(self).0@ || final(self).0@.len() == 0,
    {
        let ghost w0 = writer.sink();
        let ghost codes0 = self.0@;
        if self.0.len() == 0 {
            proof {
                assert(w0 + spec_sgr_seq(codes0) =~= w0);
            }
            return Ok(());
        }
        match writer.write("\x1b[") {
            Ok(()) => {},
            Err(e) => {
                return Err(e);
            },
        }
        proof {
            if W::obeys_sink_model() {
                reveal_strlit("\x1b[");
                assert("\x1b["@ =~= seq!['\x1b', '[']);
                assert(writer.sink() == w0 + seq!['\x1b', '[']);
            }
        }
        let ghost w1 = writer.sink();
        match self.write_codes_joined(writer) {
            Ok(()) => {},
            Err(e) => {
                return Err(e);
            },
        }
        proof {
            if W::obeys_sink_model() {
                assert(writer.sink() == w1 + spec_join_codes(codes0));
            }
        }
        let ghost w2 = writer.sink();
        self.0.clear();
        match writer.write("m") {
            Ok(()) => {
                proof {
                    if W::obeys_sink_model() {
                        reveal_strlit("m");
                        assert("m"@ =~= seq!['m']);
                        assert(writer.sink() == w2 + seq!['m']);
                        assert(writer.sink() =~= w0 + spec_sgr_seq(codes0));
                    }
                }
                Ok(())
            },
            Err(e) => Err(e),
        }
    }

    /// Writes the buffered codes to the writer joined by `;`, without the
    /// escape prefix or the closing `m`, and clears the buffer. An empty
    /// buffer makes no write and cannot fail; on an error the buffer is
    /// kept: it is cleared only once every code has been written.
    pub fn write_partial<W: CapableWriter>(&mut self, writer: &mut W) -> (r: Result<(), W::Error>)
        ensures
            r is Ok ==> final(self).0@.len() == 0,
            W::obeys_sink_model() && r is Ok ==> final(writer).sink() == old(writer).sink()
                + spec_join_codes(old(self).0@),
            old(self).0@.len() == 0 ==> r is Ok && *final(writer) == *old(writer)
                && final(self).0@ == old(self).0@,
            r is Err ==> final(self).0@ == old(self).0@,
    {
        let ghost w0 = writer.sink();
        let ghost codes0 = self.0@;
        if self.0.len() == 0 {
            proof {
                assert(w0 + spec_join_codes(codes0) =~= w0);
            }
            return Ok(());
        }
        match self.write_codes_joined(writer) {
            Ok(()) => {},
            Err(e) => {
                return Err(e);
            },
        }
        self.0.clear();
        Ok(())
    }

    /// Writes the buffered codes joined by `;` in decimal; the buffer is
    /// left as it is whatever comes back.
    fn write_codes_joined<W: CapableWriter>(&mut self, writer: &mut W) -> (r: Result<
        (),
        W::Error,
    >)
        requires
            old(self).0@.len() > 0,
        ensures
            final(self).0@ == old(self).0@,
            W::obeys_sink_model() && r is Ok ==> final(writer).sink() == old(writer).sink()
                + spec_join_codes(old(self).0@),
    {
        let ghost w0 = writer.sink();
        let first = u8_string(self.0[0]);
        match writer.write(first.as_str()) {
            Ok(()) => {},
            Err(e) => {
                return Err(e);
            },
        }
        proof {
            if W::obeys_sink_model() {
                assert(self.0@.take(1).drop_last() =~= Seq::<u8>::empty());
                assert(self.0@.take(1) =~= seq![self.0@[0]]);
                assert(spec_join_codes(self.0@.take(1)) == spec_dec_u8(self.0@[0]));
            }
        }
        let mut k: usize = 1;
        while k < self.0.len()
            invariant
                1 <= k <= self.0@.len(),
                w0 == old(writer).sink(),
                self.0@ == old(self).0@,
                W::obeys_sink_model() ==> writer.sink() == w0 + spec_join_codes(
                    self.0@.take(k as int),
                ),
            decreases self.0@.len() - k,
        {
            let ghost wk = writer.sink();
            match writer.write(";") {
                Ok(()) => {},
                Err(e) => {
                    return Err(e);
                },
            }
            let cs = u8_string(self.0[k]);
            match writer.write(cs.as_str()) {
                Ok(()) => {},
                Err(e) => {
                    return Err(e);
                },
            }
            proof {
                if W::obeys_sink_model() {
                    reveal_strlit(";");
                    assert(";"@ =~= seq![';']);
                    assert(writer.sink() == wk + seq![';'] + spec_dec_u8(self.0@[k as int]));
                    assert(self.0@.take(k + 1).drop_last() =~= self.0@.take(k as int));
                    assert(self.0@.take(k + 1).last() == self.0@[k as int]);
                    assert(spec_join_codes(self.0@.take(k + 1)) == spec_join_codes(self.0@.take(
                        k as int,
                    )) + seq![';'] + spec_dec_u8(self.0@[k as int]));
                    assert(writer.sink() =~= w0 + spec_join_codes(self.0@.take(k + 1)));
                }
            }
            k += 1;
        }
        proof {
            assert(self.0@.take(self.0@.len() as int) =~= self.0@);
        }
        Ok(())
    }
}

/// Anything that can hand a set of SGR codes to a builder.
pub trait EasyWrite {
    /// The codes this value stands for. An implementation whose callers are
    /// verified overrides this model; the default stands for no codes.
    open spec fn codes(&self) -> Seq<u8> {
        Seq::empty()
    }

    /// Writes the codes to the builder.
    fn sgr(&self, builder: &mut SGRBuilder)
        ensures
            final(builder).0@ == old(builder).0@ + self.codes(),
    ;
}

} // verus!
