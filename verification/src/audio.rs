//! The audio-device model: which kind a device is, which OS audio
//! subsystem a session runs on (an enumerated capability chosen at
//! construction, never global state), and the name-based device
//! lookup. Enumerating real devices is the caller's affair.
use vstd::prelude::*;
use crate::textenc::str_eq;

verus! {

/// Whether a device records or renders.
#[derive(PartialEq, Eq, Structural, Clone, Copy, Debug)]
pub enum DeviceKind {
    Capture,
    Playback,
}

/// The OS audio subsystem a session is constructed on.
#[derive(PartialEq, Eq, Structural, Clone, Copy, Debug)]
pub enum AudioBackend {
    PulseAudio,
    Alsa,
    Jack,
    CoreAudio,
    Wasapi,
    DSound,
    WinMM,
    Audio4,
    Oss,
    OpenSl,
    Sndio,
    Null,
}

/// The backend a user-facing name denotes; anything unknown falls back
/// to the null backend.
pub open spec fn backend_from_text_spec(s: Seq<char>) -> AudioBackend {
    if s == "PulseAudio"@ {
        AudioBackend::PulseAudio
    } else if s == "ALSA"@ {
        AudioBackend::Alsa
    } else if s == "JACK"@ {
        AudioBackend::Jack
    } else if s == "CoreAudio"@ {
        AudioBackend::CoreAudio
    } else if s == "Wasapi"@ {
        AudioBackend::Wasapi
    } else if s == "DirectSound"@ {
        AudioBackend::DSound
    } else if s == "WinMM"@ {
        AudioBackend::WinMM
    } else if s == "DSound"@ {
        AudioBackend::DSound
    } else if s == "Audio4"@ {
        AudioBackend::Audio4
    } else if s == "OSS"@ {
        AudioBackend::Oss
    } else if s == "OpenSL"@ {
        AudioBackend::OpenSl
    } else if s == "sndio"@ {
        AudioBackend::Sndio
    } else {
        AudioBackend::Null
    }
}

pub struct Audio {}

impl Audio {
    /// Map a user-facing backend name to the backend it denotes.
    pub fn backend_from_text(backend: String) -> (r: AudioBackend)
        ensures
            r == backend_from_text_spec(backend@),
    {
        let s = backend.as_str();
        if str_eq(s, "PulseAudio") {
            AudioBackend::PulseAudio
        } else if str_eq(s, "ALSA") {
            AudioBackend::Alsa
        } else if str_eq(s, "JACK") {
            AudioBackend::Jack
        } else if str_eq(s, "CoreAudio") {
            AudioBackend::CoreAudio
        } else if str_eq(s, "Wasapi") {
            AudioBackend::Wasapi
        } else if str_eq(s, "DirectSound") {
            AudioBackend::DSound
        } else if str_eq(s, "WinMM") {
            AudioBackend::WinMM
        } else if str_eq(s, "DSound") {
            AudioBackend::DSound
        } else if str_eq(s, "Audio4") {
            AudioBackend::Audio4
        } else if str_eq(s, "OSS") {
            AudioBackend::Oss
        } else if str_eq(s, "OpenSL") {
            AudioBackend::OpenSl
        } else if str_eq(s, "sndio") {
            AudioBackend::Sndio
        } else {
            AudioBackend::Null
        }
    }

    /// Find a device by name in an enumeration, as the device picker
    /// does; of several devices sharing the name, the last wins.
    pub fn find_device(names: &Vec<String>, name: &String) -> (r: Option<usize>)
        ensures
            r is None ==> forall|i: int| 0 <= i < names@.len() ==> names@[i]@ != name@,
            r is Some ==> {
                let k = r.unwrap();
                &&& 0 <= k < names@.len()
                &&& names@[k as int]@ == name@
                &&& forall|i: int| k < i < names@.len() ==> names@[i]@ != name@
            },
    {
        let n = names.len();
        let mut i: usize = n;
        while i > 0
            invariant
                0 <= i <= n,
                n == names@.len(),
                forall|t: int| i <= t < n ==> names@[t]@ != name@,
            decreases i,
        {
            i = i - 1;
            if str_eq(names[i].as_str(), name.as_str()) {
                return Some(i);
            }
        }
        None
    }
}

} // verus!
