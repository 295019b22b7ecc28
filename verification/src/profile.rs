use crate::context::{entries, lemma_set_setting, set_setting, Context, Setting};
use crate::decoder::DecoderBox;
use vstd::prelude::*;

verus! {

/// `num_cpus::get`: the number of processors that this process may use, which depends on
/// the machine and is never below one.
#[verifier::external_body]
fn available_processors() -> (n: usize)
    ensures
        n >= 1,
{
    num_cpus::get()
}

/// What a session works with: the decoders, the number of threads, and the settings that
/// the decoders are told.
pub struct Profile {
    concurrency: u32,
    decoders: Vec<DecoderBox>,
    settings: Vec<Setting>,
}

impl Profile {
    /// The number of threads.
    pub closed spec fn spec_concurrency(&self) -> u32 {
        self.concurrency
    }

    /// The decoders, in the order of their adding.
    pub closed spec fn spec_decoders(&self) -> Seq<DecoderBox> {
        self.decoders@
    }

    /// No worker of any decoder copies bytes.
    pub open spec fn zero_copy(&self) -> bool {
        forall|i: int|
            0 <= i < self.spec_decoders().len() ==> (#[trigger] self.spec_decoders()[i]).zero_copy()
    }

    /// The number of decoders.
    pub open spec fn decoder_count(&self) -> nat {
        self.spec_decoders().len()
    }

    /// The settings, in the order of their first setting.
    pub closed spec fn settings(&self) -> Seq<(Seq<char>, Seq<char>)> {
        entries(self.settings@)
    }

    /// A profile without decoders or settings, with one thread for each processor that
    /// the process may use.
    pub fn new() -> (p: Profile)
        ensures
            p.spec_concurrency() >= 1,
            p.decoder_count() == 0,
            p.settings().len() == 0,
    {
        Profile::with_concurrency(Profile::default_concurrency(available_processors()))
    }

    /// The number of threads for a machine with `processors` processors: as many, but no
    /// more than the number can hold.
    pub fn default_concurrency(processors: usize) -> (n: u32)
        ensures
            n == (if processors <= u32::MAX {
                processors as u32
            } else {
                u32::MAX
            }),
    {
        if processors <= u32::MAX as usize {
            processors as u32
        } else {
            u32::MAX
        }
    }

    /// A profile without decoders or settings, with `concurrency` threads.
    pub fn with_concurrency(concurrency: u32) -> (p: Profile)
        ensures
            p.spec_concurrency() == concurrency,
            p.decoder_count() == 0,
            p.settings().len() == 0,
    {
        Profile { concurrency, decoders: Vec::new(), settings: Vec::new() }
    }

    #[verifier::when_used_as_spec(spec_concurrency)]
    pub fn concurrency(&self) -> (n: u32)
        ensures
            n == self.spec_concurrency(),
    {
        self.concurrency
    }

    pub fn set_concurrency(&mut self, concurrency: u32)
        ensures
            final(self).spec_concurrency() == concurrency,
            final(self).spec_decoders() == old(self).spec_decoders(),
            final(self).settings() == old(self).settings(),
    {
        self.concurrency = concurrency;
    }

    /// Adds a decoder after those already held.
    pub fn add_decoder(&mut self, decoder: DecoderBox)
        ensures
            final(self).spec_decoders() == old(self).spec_decoders().push(decoder),
            final(self).spec_concurrency() == old(self).spec_concurrency(),
            final(self).settings() == old(self).settings(),
    {
        self.decoders.push(decoder);
    }

    /// The decoders, in the order of their adding.
    pub fn decoders(&self) -> (r: &[DecoderBox])
        ensures
            r@ == self.spec_decoders(),
    {
        self.decoders.as_slice()
    }

    /// Gives `key` the value `value`: in place of the value it had, or as a new setting
    /// after the others.
    pub fn set_config(&mut self, key: &str, value: &str)
        ensures
            final(self).spec_concurrency() == old(self).spec_concurrency(),
            final(self).spec_decoders() == old(self).spec_decoders(),
            final(self).settings() == set_setting(old(self).settings(), key@, value@),
    {
        let wanted = key.to_owned();
        let ghost before = self.settings();
        let mut i: usize = 0;
        while i < self.settings.len()
            invariant
                i <= self.settings@.len(),
                wanted@ == key@,
                self.settings() == before,
                before == old(self).settings(),
                self.concurrency == old(self).concurrency,
                self.decoders == old(self).decoders,
                forall|j: int| 0 <= j < i ==> before[j].0 != key@,
            decreases self.settings@.len() - i,
        {
            assert(before[i as int].0 == self.settings@[i as int].key@);
            if self.settings[i].key == wanted {
                self.settings[i] = Setting { key: wanted, value: value.to_owned() };
                proof {
                    lemma_set_setting(before, key@, value@, i as int);
                    assert(self.settings() =~= before.update(i as int, (key@, value@)));
                }
                return ;
            }
            i = i + 1;
        }
        self.settings.push(Setting { key: wanted, value: value.to_owned() });
        proof {
            lemma_set_setting(before, key@, value@, before.len() as int);
            assert(self.settings() =~= before.push((key@, value@)));
        }
    }

    /// The context that the workers of this profile are given: its settings.
    pub fn context(&self) -> (c: Context)
        ensures
            c@ == self.settings(),
    {
        let mut copy: Vec<Setting> = Vec::new();
        let mut i: usize = 0;
        while i < self.settings.len()
            invariant
                i <= self.settings@.len(),
                copy@.len() == i,
                forall|j: int|
                    0 <= j < i ==> copy@[j].key@ == self.settings@[j].key@ && copy@[j].value@
                        == self.settings@[j].value@,
            decreases self.settings@.len() - i,
        {
            let s = &self.settings[i];
            copy.push(Setting { key: s.key.clone(), value: s.value.clone() });
            i = i + 1;
        }
        assert(entries(copy@) =~= self.settings());
        Context::new(copy)
    }
}

impl Clone for Profile {
    /// A profile with the same number of threads and settings, which shares the decoders:
    /// each decoder of the copy says of itself what the decoder at its place says.
    fn clone(&self) -> (p: Profile)
        ensures
            p.spec_concurrency() == self.spec_concurrency(),
            p.decoder_count() == self.decoder_count(),
            forall|i: int|
                0 <= i < self.decoder_count() ==> (#[trigger] p.spec_decoders()[i]).same_as(
                    self.spec_decoders()[i],
                ),
            p.settings() == self.settings(),
    {
        let mut decoders: Vec<DecoderBox> = Vec::new();
        let mut i: usize = 0;
        while i < self.decoders.len()
            invariant
                i <= self.decoders@.len(),
                decoders@.len() == i,
                forall|k: int|
                    0 <= k < i ==> (#[trigger] decoders@[k]).same_as(self.decoders@[k]),
            decreases self.decoders@.len() - i,
        {
            decoders.push(self.decoders[i].clone());
            i = i + 1;
        }
        let mut settings: Vec<Setting> = Vec::new();
        let mut j: usize = 0;
        while j < self.settings.len()
            invariant
                j <= self.settings@.len(),
                settings@.len() == j,
                forall|k: int|
                    0 <= k < j ==> settings@[k].key@ == self.settings@[k].key@ && settings@[k].value@
                        == self.settings@[k].value@,
            decreases self.settings@.len() - j,
        {
            let s = &self.settings[j];
            settings.push(Setting { key: s.key.clone(), value: s.value.clone() });
            j = j + 1;
        }
        assert(entries(settings@) =~= self.settings());
        Profile { concurrency: self.concurrency, decoders, settings }
    }
}

} // verus!
