use vstd::prelude::*;

use crate::workshops::ProgrammingCode;
use crate::workshops::SpokenCode;

verus! {

/// Configuration defaults owned by the invoking session: preferred
/// executables, language preferences, and the minimum versions each
/// tool must meet. The session loads and persists it; this core only
/// reads defaults out of it and stores chosen values back into it.
pub struct Config {
    pub python_executable: Option<String>,
    pub docker_compose_executable: Option<String>,
    pub git_executable: Option<String>,
    pub spoken_language: Option<SpokenCode>,
    pub programming_language: Option<ProgrammingCode>,
    pub python_minimum_version: String,
    pub docker_compose_minimum_version: String,
    pub git_minimum_version: String,
}

fn clone_opt_string(o: &Option<String>) -> (r: Option<String>)
    ensures
        r == o,
{
    match o {
        Some(s) => Some(s.clone()),
        None => None,
    }
}

/// The currently active session context: resolved tool paths, the
/// selected spoken and programming language, and the selected workshop
/// and lesson. It starts from the configuration's defaults and is
/// mutated through its setters; persistence is the session's affair.
pub struct Status {
    pub python_executable: Option<String>,
    pub docker_compose_executable: Option<String>,
    pub git_executable: Option<String>,
    pub spoken_language: Option<SpokenCode>,
    pub programming_language: Option<ProgrammingCode>,
    pub workshop: Option<String>,
    pub lesson: Option<String>,
    pub config: Config,
}

impl Status {
    /// A fresh context takes the configuration's defaults; no workshop
    /// or lesson is selected yet.
    pub fn from_config(config: Config) -> (s: Status)
        ensures
            s.python_executable == config.python_executable,
            s.docker_compose_executable == config.docker_compose_executable,
            s.git_executable == config.git_executable,
            s.spoken_language == config.spoken_language,
            s.programming_language == config.programming_language,
            s.workshop is None,
            s.lesson is None,
            s.config == config,
    {
        let python_executable = clone_opt_string(&config.python_executable);
        let docker_compose_executable = clone_opt_string(&config.docker_compose_executable);
        let git_executable = clone_opt_string(&config.git_executable);
        let spoken_language = config.spoken_language;
        let programming_language = config.programming_language;
        Status {
            python_executable,
            docker_compose_executable,
            git_executable,
            spoken_language,
            programming_language,
            workshop: None,
            lesson: None,
            config,
        }
    }

    /// The minimum required interpreter version, from configuration.
    pub fn python_minimum_version(&self) -> (r: &str)
        ensures
            r@ == self.config.python_minimum_version@,
    {
        self.config.python_minimum_version.as_str()
    }

    /// The preferred interpreter executable, when one is set.
    pub fn python_executable(&self) -> (r: Option<&str>)
        ensures
            match r {
                Some(s) => self.python_executable matches Some(f) && s@ == f@,
                None => self.python_executable is None,
            },
    {
        match &self.python_executable {
            Some(s) => Some(s.as_str()),
            None => None,
        }
    }

    /// The minimum required compose-tool version, from configuration.
    pub fn docker_compose_minimum_version(&self) -> (r: &str)
        ensures
            r@ == self.config.docker_compose_minimum_version@,
    {
        self.config.docker_compose_minimum_version.as_str()
    }

    /// The preferred compose-tool executable, when one is set.
    pub fn docker_compose_executable(&self) -> (r: Option<&str>)
        ensures
            match r {
                Some(s) => self.docker_compose_executable matches Some(f) && s@ == f@,
                None => self.docker_compose_executable is None,
            },
    {
        match &self.docker_compose_executable {
            Some(s) => Some(s.as_str()),
            None => None,
        }
    }

    /// The preferred version-control executable, when one is set.
    pub fn git_executable(&self) -> (r: Option<&str>)
        ensures
            match r {
                Some(s) => self.git_executable matches Some(f) && s@ == f@,
                None => self.git_executable is None,
            },
    {
        match &self.git_executable {
            Some(s) => Some(s.as_str()),
            None => None,
        }
    }

    /// The minimum required version-control version, from configuration.
    pub fn git_minimum_version(&self) -> (r: &str)
        ensures
            r@ == self.config.git_minimum_version@,
    {
        self.config.git_minimum_version.as_str()
    }

    /// The preferred spoken language, when one is set.
    pub fn spoken_language(&self) -> (r: Option<SpokenCode>)
        ensures
            r == self.spoken_language,
    {
        self.spoken_language
    }

    /// The preferred programming language, when one is set.
    pub fn programming_language(&self) -> (r: Option<ProgrammingCode>)
        ensures
            r == self.programming_language,
    {
        self.programming_language
    }

    /// The selected workshop, when one is set.
    pub fn workshop(&self) -> (r: Option<&str>)
        ensures
            match r {
                Some(s) => self.workshop matches Some(f) && s@ == f@,
                None => self.workshop is None,
            },
    {
        match &self.workshop {
            Some(s) => Some(s.as_str()),
            None => None,
        }
    }

    /// The selected lesson, when one is set.
    pub fn lesson(&self) -> (r: Option<&str>)
        ensures
            match r {
                Some(s) => self.lesson matches Some(f) && s@ == f@,
                None => self.lesson is None,
            },
    {
        match &self.lesson {
            Some(s) => Some(s.as_str()),
            None => None,
        }
    }

    /// Set the preferred interpreter executable; with `default` it also
    /// becomes the configuration default.
    pub fn set_python_executable(&mut self, python_executable: &str, default: bool)
        ensures
            final(self).python_executable matches Some(s) && s@ == python_executable@,
            default ==> (final(self).config.python_executable matches Some(s) && s@
                == python_executable@),
            !default ==> final(self).config == old(self).config,
            default ==> final(self).config.docker_compose_executable == old(self).config.docker_compose_executable && final(self).config.git_executable == old(self).config.git_executable && final(self).config.spoken_language == old(self).config.spoken_language && final(self).config.programming_language == old(self).config.programming_language && final(self).config.python_minimum_version == old(self).config.python_minimum_version && final(self).config.docker_compose_minimum_version
                == old(self).config.docker_compose_minimum_version && final(self).config.git_minimum_version == old(self).config.git_minimum_version,
            final(self).docker_compose_executable == old(self).docker_compose_executable,
            final(self).git_executable == old(self).git_executable,
            final(self).spoken_language == old(self).spoken_language,
            final(self).programming_language == old(self).programming_language,
            final(self).workshop == old(self).workshop,
            final(self).lesson == old(self).lesson,
    {
        self.python_executable = Some(python_executable.to_owned());
        if default {
            self.config.python_executable = Some(python_executable.to_owned());
        }
    }

    /// Set the preferred compose-tool executable; with `default` it
    /// also becomes the configuration default.
    pub fn set_docker_compose_executable(&mut self, docker_compose_executable: &str, default: bool)
        ensures
            final(self).docker_compose_executable matches Some(s) && s@
                == docker_compose_executable@,
            default ==> (final(self).config.docker_compose_executable matches Some(s) && s@
                == docker_compose_executable@),
            !default ==> final(self).config == old(self).config,
            default ==> final(self).config.python_executable == old(self).config.python_executable && final(self).config.git_executable == old(self).config.git_executable && final(self).config.spoken_language == old(self).config.spoken_language && final(self).config.programming_language == old(self).config.programming_language && final(self).config.python_minimum_version == old(self).config.python_minimum_version && final(self).config.docker_compose_minimum_version
                == old(self).config.docker_compose_minimum_version && final(self).config.git_minimum_version == old(self).config.git_minimum_version,
            final(self).python_executable == old(self).python_executable,
            final(self).git_executable == old(self).git_executable,
            final(self).spoken_language == old(self).spoken_language,
            final(self).programming_language == old(self).programming_language,
            final(self).workshop == old(self).workshop,
            final(self).lesson == old(self).lesson,
    {
        self.docker_compose_executable = Some(docker_compose_executable.to_owned());
        if default {
            self.config.docker_compose_executable = Some(docker_compose_executable.to_owned());
        }
    }

    /// Set the preferred version-control executable; with `default` it
    /// also becomes the configuration default.
    pub fn set_git_executable(&mut self, git_executable: &str, default: bool)
        ensures
            final(self).git_executable matches Some(s) && s@ == git_executable@,
            default ==> (final(self).config.git_executable matches Some(s) && s@
                == git_executable@),
            !default ==> final(self).config == old(self).config,
            default ==> final(self).config.python_executable == old(self).config.python_executable && final(self).config.docker_compose_executable == old(self).config.docker_compose_executable && final(self).config.spoken_language == old(self).config.spoken_language && final(self).config.programming_language == old(self).config.programming_language && final(self).config.python_minimum_version == old(self).config.python_minimum_version && final(self).config.docker_compose_minimum_version
                == old(self).config.docker_compose_minimum_version && final(self).config.git_minimum_version == old(self).config.git_minimum_version,
            final(self).python_executable == old(self).python_executable,
            final(self).docker_compose_executable == old(self).docker_compose_executable,
            final(self).spoken_language == old(self).spoken_language,
            final(self).programming_language == old(self).programming_language,
            final(self).workshop == old(self).workshop,
            final(self).lesson == old(self).lesson,
    {
        self.git_executable = Some(git_executable.to_owned());
        if default {
            self.config.git_executable = Some(git_executable.to_owned());
        }
    }

    /// Set (or clear) the spoken language; with `default` the choice
    /// also becomes the configuration default.
    pub fn set_spoken_language(&mut self, spoken_language: Option<SpokenCode>, default: bool)
        ensures
            final(self).spoken_language == spoken_language,
            default ==> final(self).config.spoken_language == spoken_language,
            !default ==> final(self).config == old(self).config,
            default ==> final(self).config.python_executable == old(self).config.python_executable && final(self).config.docker_compose_executable == old(self).config.docker_compose_executable && final(self).config.git_executable == old(self).config.git_executable && final(self).config.programming_language == old(self).config.programming_language && final(self).config.python_minimum_version == old(self).config.python_minimum_version && final(self).config.docker_compose_minimum_version
                == old(self).config.docker_compose_minimum_version && final(self).config.git_minimum_version == old(self).config.git_minimum_version,
            final(self).python_executable == old(self).python_executable,
            final(self).docker_compose_executable == old(self).docker_compose_executable,
            final(self).git_executable == old(self).git_executable,
            final(self).programming_language == old(self).programming_language,
            final(self).workshop == old(self).workshop,
            final(self).lesson == old(self).lesson,
    {
        self.spoken_language = spoken_language;
        if default {
            self.config.spoken_language = spoken_language;
        }
    }

    /// Set (or clear) the programming language; with `default` the
    /// choice also becomes the configuration default.
    pub fn set_programming_language(
        &mut self,
        programming_language: Option<ProgrammingCode>,
        default: bool,
    )
        ensures
            final(self).programming_language == programming_language,
            default ==> final(self).config.programming_language == programming_language,
            !default ==> final(self).config == old(self).config,
            default ==> final(self).config.python_executable == old(self).config.python_executable && final(self).config.docker_compose_executable == old(self).config.docker_compose_executable && final(self).config.git_executable == old(self).config.git_executable && final(self).config.spoken_language == old(self).config.spoken_language && final(self).config.python_minimum_version == old(self).config.python_minimum_version && final(self).config.docker_compose_minimum_version
                == old(self).config.docker_compose_minimum_version && final(self).config.git_minimum_version == old(self).config.git_minimum_version,
            final(self).python_executable == old(self).python_executable,
            final(self).docker_compose_executable == old(self).docker_compose_executable,
            final(self).git_executable == old(self).git_executable,
            final(self).spoken_language == old(self).spoken_language,
            final(self).workshop == old(self).workshop,
            final(self).lesson == old(self).lesson,
    {
        self.programming_language = programming_language;
        if default {
            self.config.programming_language = programming_language;
        }
    }

    /// Set (or clear) the selected workshop.
    pub fn set_workshop(&mut self, workshop: Option<String>)
        ensures
            final(self).workshop == workshop,
            final(self).python_executable == old(self).python_executable,
            final(self).docker_compose_executable == old(self).docker_compose_executable,
            final(self).git_executable == old(self).git_executable,
            final(self).spoken_language == old(self).spoken_language,
            final(self).programming_language == old(self).programming_language,
            final(self).lesson == old(self).lesson,
            final(self).config == old(self).config,
    {
        self.workshop = workshop;
    }

    /// Set (or clear) the selected lesson.
    pub fn set_lesson(&mut self, lesson: Option<String>)
        ensures
            final(self).lesson == lesson,
            final(self).python_executable == old(self).python_executable,
            final(self).docker_compose_executable == old(self).docker_compose_executable,
            final(self).git_executable == old(self).git_executable,
            final(self).spoken_language == old(self).spoken_language,
            final(self).programming_language == old(self).programming_language,
            final(self).workshop == old(self).workshop,
            final(self).config == old(self).config,
    {
        self.lesson = lesson;
    }
}

} // verus!
