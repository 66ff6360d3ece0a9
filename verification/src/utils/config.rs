//! The project configuration that a new project starts from.

use vstd::prelude::*;
use vstd::string::*;

verus! {

/// The text of the configuration that a new project starts from.
pub open spec fn default_config_text() -> Seq<char> {
    DEFAULT_CONFIG@
}

pub const DEFAULT_CONFIG: &'static str = "config:
  Build .env file:
    - question:
        prompt: Are you using a development environment? 
        options:
          - true
          - false
        response:
          store in: DEBUG
    - question:
        prompt: Enter the SECRET_KEY
        hints:
          - Generate using url. You'll need to put val in quotes
        response:
          store in: SECRET_KEY
  Finishing steps:
    - run:
       - # enter virtual env
       - python mange.py migrate
       - python manage.py createsuperuser
       - python manage.py runserver
       - command:
           exec: npm install wowo
           confirm: true
           description: installs the wowo dependency
    - env:
        name: .env
        data:
          - DEBUG
          - SECRET_KEY

tasks:
  - Do this for me:
      - sub tasks
      - sub tasks
  - Do this also
  - Also this:
      - sub task
      - sub task
";

/// The configuration that a new project starts from.
pub fn default_config() -> (text: String)
    ensures
        text@ == default_config_text(),
{
    String::from_str(DEFAULT_CONFIG)
}

} // verus!
