//! The settings of a run, made from what the command line gave.

use crate::input::number::{number_of, parse_number};
use crate::scalar::{is_nan, is_number, rank, rank_of};
use vstd::prelude::*;
use vstd::string::*;

verus! {

/// How much is reported while the program runs.
#[derive(Debug, Clone, Copy, PartialEq, Eq, Structural)]
pub enum Verbosity {
    Off,
    Error,
    Info,
    Debug,
    Trace,
}

/// The kind of record that the data file holds.
#[derive(Debug, Clone, Copy, PartialEq, Eq, Structural)]
pub enum DataType {
    Flower,
    Mnist,
}

/// What the command line gave for learning, as it was written. The learning
/// rate alone has been read already: it is a scalar.
#[derive(Debug)]
pub struct LearnArguments {
    pub learning_rate: u32,
    pub epochs: String,
    pub mini_batch_size: String,
    pub topology: Vec<String>,
    pub test_data_size: String,
}

/// What the command line gave, as it was written.
#[derive(Debug)]
pub struct Arguments {
    pub verbosity: Option<String>,
    pub save_file: String,
    pub data: String,
    pub datatype: String,
    pub learn: Option<LearnArguments>,
}

/// Which argument could not be understood.
#[derive(Debug, Clone, Copy, PartialEq, Eq)]
pub enum ArgumentError {
    /// The number of epochs is no number that fits 32 bits.
    Epochs,
    /// The batch size is no number that fits 32 bits.
    BatchSize,
    /// Entry `index` of the topology is no number that fits 32 bits.
    Topology { index: usize },
    /// The size of the validation set is no number that fits a length.
    TestSize,
    /// The kind of data is neither `flower` nor `mnist`.
    DataType,
    /// The verbosity is none of `debug`, `info`, `error` and `off`.
    Verbosity,
    /// The topology names fewer than three layers.
    TopologyLength { actual: usize },
}

/// The hyperparameters used for learning.
#[derive(Debug)]
pub struct LearningConfig {
    /// The step width of gradient descent, a scalar.
    pub learning_rate: u32,
    /// Number of learning epochs.
    pub epochs: u32,
    /// Size of the batches that one gradient step is made on.
    pub batch_size: u32,
    /// Number of neurons in each layer, the input and output layers included.
    pub init_vec: Vec<u32>,
    /// Number of samples that are set aside for validation.
    pub test_size: usize,
    /// Where the trained network is stored.
    pub save_file: String,
}

/// The settings of a run.
#[derive(Debug)]
pub struct GlobalConfig {
    /// How much is reported.
    pub verbosity: Verbosity,
    /// Where the network is stored, or loaded from.
    pub save_file: String,
    /// Where the samples are read from.
    pub data_file: String,
    /// The kind of record that the samples are read as.
    pub datatype: DataType,
    /// The hyperparameters, where the run is one of learning.
    pub learn_config: Option<LearningConfig>,
}

/// The level that a word stands for; the most verbose one where there is no
/// word or none that is known.
pub open spec fn verbosity_of(word: Option<Seq<char>>) -> Verbosity {
    match word {
        Some(w) => if w == "debug"@ {
            Verbosity::Debug
        } else if w == "info"@ {
            Verbosity::Info
        } else if w == "error"@ {
            Verbosity::Error
        } else if w == "off"@ {
            Verbosity::Off
        } else {
            Verbosity::Trace
        },
        None => Verbosity::Trace,
    }
}

/// The kind of data that a word stands for.
pub open spec fn datatype_of(word: Seq<char>) -> Option<DataType> {
    if word == "flower"@ {
        Some(DataType::Flower)
    } else if word == "mnist"@ {
        Some(DataType::Mnist)
    } else {
        None
    }
}

/// The first index from `from` on at which the topology holds no number, or
/// its length if there is none.
pub open spec fn first_unreadable(topology: Seq<String>, from: int) -> int
    decreases topology.len() - from,
{
    if from < 0 || from >= topology.len() {
        topology.len() as int
    } else if number_of(topology[from]@, u32::MAX as nat).is_none() {
        from
    } else {
        first_unreadable(topology, from + 1)
    }
}

/// The first thing that cannot be understood in the arguments for learning.
pub open spec fn learn_defect(learn: LearnArguments) -> Option<ArgumentError> {
    if number_of(learn.epochs@, u32::MAX as nat).is_none() {
        Some(ArgumentError::Epochs)
    } else if number_of(learn.mini_batch_size@, u32::MAX as nat).is_none() {
        Some(ArgumentError::BatchSize)
    } else if first_unreadable(learn.topology@, 0) < learn.topology@.len() {
        Some(ArgumentError::Topology { index: first_unreadable(learn.topology@, 0) as usize })
    } else if number_of(learn.test_data_size@, usize::MAX as nat).is_none() {
        Some(ArgumentError::TestSize)
    } else {
        None
    }
}

/// The first thing that cannot be understood in the arguments.
pub open spec fn defect(args: Arguments) -> Option<ArgumentError> {
    if args.learn.is_some() && learn_defect(args.learn.unwrap()).is_some() {
        learn_defect(args.learn.unwrap())
    } else if datatype_of(args.datatype@).is_none() {
        Some(ArgumentError::DataType)
    } else {
        None
    }
}

/// The hyperparameters `config` are those that `learn` writes, to be stored
/// in `save_file`.
pub open spec fn learn_config_matches(
    config: LearningConfig,
    learn: LearnArguments,
    save_file: Seq<char>,
) -> bool {
    &&& config.learning_rate == learn.learning_rate
    &&& number_of(learn.epochs@, u32::MAX as nat) == Some(config.epochs as nat)
    &&& number_of(learn.mini_batch_size@, u32::MAX as nat) == Some(config.batch_size as nat)
    &&& config.init_vec@.len() == learn.topology@.len()
    &&& forall|i: int|
        0 <= i < config.init_vec@.len() ==> number_of(
            (#[trigger] learn.topology@[i])@,
            u32::MAX as nat,
        ) == Some(config.init_vec@[i] as nat)
    &&& number_of(learn.test_data_size@, usize::MAX as nat) == Some(config.test_size as nat)
    &&& config.save_file@ == save_file
}

/// The settings `config` are those that the arguments ask for.
pub open spec fn settings_match(config: GlobalConfig, args: Arguments) -> bool {
    &&& config.verbosity == verbosity_of(
        match args.verbosity {
            Some(w) => Some(w@),
            None => None,
        },
    )
    &&& config.save_file@ == args.save_file@
    &&& config.data_file@ == args.data@
    &&& Some(config.datatype) == datatype_of(args.datatype@)
    &&& config.learn_config.is_some() == args.learn.is_some()
    &&& config.learn_config.is_some() ==> learn_config_matches(
        config.learn_config.unwrap(),
        args.learn.unwrap(),
        args.save_file@,
    )
}

/// Whether the word is one of those that name a level of verbosity.
pub open spec fn names_verbosity(word: Seq<char>) -> bool {
    word == "debug"@ || word == "info"@ || word == "error"@ || word == "off"@
}

/// The first rule of the command line that the arguments break: the
/// verbosity and the kind of data are among the words that are known, and a
/// topology has three layers or more.
pub open spec fn rule_defect(args: Arguments) -> Option<ArgumentError> {
    if args.verbosity.is_some() && !names_verbosity(args.verbosity.unwrap()@) {
        Some(ArgumentError::Verbosity)
    } else if datatype_of(args.datatype@).is_none() {
        Some(ArgumentError::DataType)
    } else if args.learn.is_some() && args.learn.unwrap().topology@.len() < 3 {
        Some(ArgumentError::TopologyLength { actual: args.learn.unwrap().topology@.len() as usize })
    } else {
        None
    }
}

/// Whether two texts are the same.
pub fn same_text(a: &str, b: &str) -> (r: bool)
    ensures
        r == (a@ == b@),
{
    let len: usize = a.unicode_len();
    if len != b.unicode_len() {
        return false;
    }
    let mut i: usize = 0;
    while i < len
        invariant
            len == a@.len(),
            len == b@.len(),
            i <= len,
            forall|j: int| 0 <= j < i ==> a@[j] == b@[j],
        decreases len - i,
    {
        if a.get_char(i) != b.get_char(i) {
            return false;
        }
        i += 1;
    }
    assert(a@ =~= b@);
    true
}

/// Reads the topology, entry by entry.
fn read_topology(topology: &Vec<String>) -> (r: Result<Vec<u32>, ArgumentError>)
    ensures
        match r {
            Ok(v) => {
                &&& first_unreadable(topology@, 0) == topology@.len()
                &&& v@.len() == topology@.len()
                &&& forall|i: int|
                    0 <= i < v@.len() ==> number_of(
                        (#[trigger] topology@[i])@,
                        u32::MAX as nat,
                    ) == Some(v@[i] as nat)
            },
            Err(e) => first_unreadable(topology@, 0) < topology@.len() && e
                == (ArgumentError::Topology { index: first_unreadable(topology@, 0) as usize }),
        },
{
    let mut sizes: Vec<u32> = Vec::new();
    let mut i: usize = 0;
    while i < topology.len()
        invariant
            i <= topology@.len(),
            sizes@.len() == i,
            first_unreadable(topology@, 0) == first_unreadable(topology@, i as int),
            forall|j: int|
                0 <= j < i ==> number_of((#[trigger] topology@[j])@, u32::MAX as nat) == Some(
                    sizes@[j] as nat,
                ),
        decreases topology@.len() - i,
    {
        match parse_number(topology[i].as_str(), 0xffff_ffff) {
            Some(n) => {
                sizes.push(n as u32);
            },
            None => {
                return Err(ArgumentError::Topology { index: i });
            },
        }
        i += 1;
    }
    Ok(sizes)
}

impl LearningConfig {
    /// The hyperparameters can be trained with: a positive learning rate, one
    /// epoch or more, one sample or more in a batch, and three layers or more.
    pub open spec fn valid(self) -> bool {
        &&& !is_nan(self.learning_rate)
        &&& rank(self.learning_rate) > 0
        &&& self.epochs >= 1
        &&& self.batch_size >= 1
        &&& self.init_vec@.len() >= 3
    }

    /// Whether the hyperparameters can be trained with.
    pub fn is_valid(&self) -> (r: bool)
        ensures
            r == self.valid(),
    {
        is_number(self.learning_rate) && rank_of(self.learning_rate) > 0 && self.epochs >= 1
            && self.batch_size >= 1 && self.init_vec.len() >= 3
    }

    /// The layer sizes as the network takes them; `None` exactly when one of
    /// them is above 255.
    pub fn topology(&self) -> (r: Option<Vec<u8>>)
        ensures
            r.is_some() <==> forall|i: int|
                0 <= i < self.init_vec@.len() ==> #[trigger] self.init_vec@[i] <= 255,
            r.is_some() ==> r.unwrap()@.len() == self.init_vec@.len() && forall|i: int|
                0 <= i < self.init_vec@.len() ==> #[trigger] r.unwrap()@[i] == self.init_vec@[i],
    {
        let mut sizes: Vec<u8> = Vec::new();
        let mut i: usize = 0;
        while i < self.init_vec.len()
            invariant
                i <= self.init_vec@.len(),
                sizes@.len() == i,
                forall|j: int| 0 <= j < i ==> #[trigger] sizes@[j] == self.init_vec@[j],
            decreases self.init_vec@.len() - i,
        {
            let size: u32 = self.init_vec[i];
            if size > 255 {
                return None;
            }
            sizes.push(size as u8);
            i += 1;
        }
        assert forall|j: int| 0 <= j < self.init_vec@.len() implies #[trigger] self.init_vec@[j]
            <= 255 by {
            assert(sizes@[j] == self.init_vec@[j]);
        }
        Some(sizes)
    }
}

impl GlobalConfig {
    /// The settings that the arguments ask for, or the first of them that
    /// cannot be understood.
    pub fn from_arguments(args: &Arguments) -> (r: Result<GlobalConfig, ArgumentError>)
        ensures
            match r {
                Ok(config) => defect(*args).is_none() && settings_match(config, *args),
                Err(e) => defect(*args) == Some(e),
            },
    {
        let verbosity = match &args.verbosity {
            Some(word) => {
                let w = word.as_str();
                if same_text(w, "debug") {
                    Verbosity::Debug
                } else if same_text(w, "info") {
                    Verbosity::Info
                } else if same_text(w, "error") {
                    Verbosity::Error
                } else if same_text(w, "off") {
                    Verbosity::Off
                } else {
                    Verbosity::Trace
                }
            },
            None => Verbosity::Trace,
        };
        let learn_config = match &args.learn {
            Some(learn) => {
                let epochs = match parse_number(learn.epochs.as_str(), 0xffff_ffff) {
                    Some(n) => n as u32,
                    None => {
                        return Err(ArgumentError::Epochs);
                    },
                };
                let batch_size = match parse_number(learn.mini_batch_size.as_str(), 0xffff_ffff) {
                    Some(n) => n as u32,
                    None => {
                        return Err(ArgumentError::BatchSize);
                    },
                };
                let init_vec = match read_topology(&learn.topology) {
                    Ok(v) => v,
                    Err(e) => {
                        return Err(e);
                    },
                };
                let test_size = match parse_number(
                    learn.test_data_size.as_str(),
                    usize::MAX as u64,
                ) {
                    Some(n) => n as usize,
                    None => {
                        return Err(ArgumentError::TestSize);
                    },
                };
                Some(
                    LearningConfig {
                        learning_rate: learn.learning_rate,
                        epochs,
                        batch_size,
                        init_vec,
                        test_size,
                        save_file: args.save_file.clone(),
                    },
                )
            },
            None => None,
        };
        let kind = args.datatype.as_str();
        let datatype = if same_text(kind, "flower") {
            DataType::Flower
        } else if same_text(kind, "mnist") {
            DataType::Mnist
        } else {
            return Err(ArgumentError::DataType);
        };
        Ok(
            GlobalConfig {
                verbosity,
                save_file: args.save_file.clone(),
                data_file: args.data.clone(),
                datatype,
                learn_config,
            },
        )
    }
}

} // verus!
